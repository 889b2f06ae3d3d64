//! Stateful incremental syntax highlighting.
use vstd::prelude::*;
use vstd::string::*;

use crate::diagnostic::{
    diagnostic_views, resolved_span, span_view, Diagnostic, DiagnosticSpan, DiagnosticView,
};
use crate::highlight::{highlight_of, highlight_tokens_from_lex_tokens, HighlightToken};
use crate::lexer::{
    lex_source, lexed_diagnostics, lexed_tokens, token_views, Lexer, Token, TokenKind, TokenView,
};
use crate::lex_laws::{lemma_byte_offset_from, lemma_filter_map_concat, lex_tail, moved, tail_views};
use crate::lexer::{diags_of, error_diagnostic, lex_from, token_of, LexTok};
use crate::source::{SourceFile, SourceId, SourceView, TextRange};
use crate::text::{
    byte_len, byte_offset, is_boundary, lemma_byte_len_concat, lemma_byte_len_is_encoding_len,
    lemma_byte_offset_full, lemma_byte_offset_mono, lemma_byte_offset_strict, str_eq,
};

verus! {

/// A source replacement edit expressed against the session's old UTF-8 byte offsets.
#[derive(Clone, Debug, PartialEq, Eq)]
pub struct HighlightEdit {
    /// Old-source byte range to replace.
    pub range: TextRange,
    /// Replacement source text.
    pub replacement: String,
}

/// Result returned after a reset or update.
#[derive(Clone, Debug, PartialEq, Eq)]
pub struct IncrementalHighlightUpdate {
    /// Session version after applying the change.
    pub version: u64,
    /// New-source byte range whose highlight data was recomputed or invalidated.
    pub changed_range: TextRange,
    /// Current full highlight token set after patching the session cache.
    pub tokens: Vec<HighlightToken>,
    /// Current lexer diagnostics after patching the session cache.
    pub diagnostics: Vec<Diagnostic>,
    /// True when the session intentionally rebuilt from the full source.
    pub full_rehighlight: bool,
}

/// Error returned when an incremental highlight edit cannot be applied.
#[derive(Clone, Copy, Debug, PartialEq, Eq, Structural)]
pub enum IncrementalHighlightError {
    /// The edit range is outside the old source or splits a UTF-8 code point.
    InvalidEditRange { range: TextRange, source_len: usize },
}

/// Stateful lexer-backed syntax highlight session.
#[derive(Debug)]
pub struct IncrementalHighlightSession {
    source: SourceFile,
    cache: HighlightCache,
    version: u64,
}

/// Lexer tokens, the highlight tokens derived from them, and lexer diagnostics.
#[derive(Debug)]
struct HighlightCache {
    lex_tokens: Vec<Token>,
    highlight_tokens: Vec<HighlightToken>,
    diagnostics: Vec<Diagnostic>,
}

// ---------------------------------------------------------------------------
// Specification of the relexing strategy
// ---------------------------------------------------------------------------

pub open spec fn ranges_touch(left: TextRange, right: TextRange) -> bool {
    left.start <= right.end && right.start <= left.end
}

pub open spec fn fallback_kind(kind: TokenKind) -> bool {
    kind == TokenKind::BlockComment || kind == TokenKind::StringLiteral || kind == TokenKind::Error
}

/// Index of the first token at or after `i` whose relexing must start at its own start.
pub open spec fn first_fallback(toks: Seq<TokenView>, edit: TextRange, i: int) -> Option<int>
    decreases toks.len() - i,
{
    if i < 0 || i >= toks.len() {
        None
    } else if fallback_kind(toks[i].kind) && ranges_touch(toks[i].range, edit) {
        Some(i)
    } else {
        first_fallback(toks, edit, i + 1)
    }
}

/// Index of the first token at or after `i` that ends at or after byte `b`.
pub open spec fn first_end_at_least(toks: Seq<TokenView>, b: int, i: int) -> Option<int>
    decreases toks.len() - i,
{
    if i < 0 || i >= toks.len() {
        None
    } else if toks[i].range.end >= b {
        Some(i)
    } else {
        first_end_at_least(toks, b, i + 1)
    }
}

/// Index of the first token at or after `i` that starts at or after byte `b`, or the length.
pub open spec fn first_start_at_least(toks: Seq<TokenView>, b: int, i: int) -> int
    decreases toks.len() - i,
{
    if i < 0 || i >= toks.len() {
        toks.len() as int
    } else if toks[i].range.start >= b {
        i
    } else {
        first_start_at_least(toks, b, i + 1)
    }
}

/// Byte offset from which an edit is relexed.
pub open spec fn relex_start(toks: Seq<TokenView>, edit: TextRange) -> int {
    match first_fallback(toks, edit, 0) {
        Some(i) => toks[i].range.start as int,
        None => {
            let idx0 = match first_end_at_least(toks, edit.start as int, 0) {
                Some(i) => i,
                None => if toks.len() > 0 {
                    toks.len() - 1
                } else {
                    0
                },
            };
            let idx = if idx0 > 0 {
                idx0 - 1
            } else {
                idx0
            };
            if toks[idx].kind != TokenKind::Eof {
                toks[idx].range.start as int
            } else {
                edit.start as int
            }
        },
    }
}

/// Byte offset shifted by a signed delta, when it stays a machine offset.
pub open spec fn shifted(offset: int, delta: int) -> Option<usize> {
    if 0 <= offset + delta <= usize::MAX {
        Some((offset + delta) as usize)
    } else {
        None
    }
}

pub open spec fn shifted_range(range: TextRange, delta: int) -> Option<TextRange> {
    match (shifted(range.start as int, delta), shifted(range.end as int, delta)) {
        (Some(s), Some(e)) => Some(TextRange { start: s, end: e }),
        _ => None,
    }
}

/// Text after replacing the characters between two character indexes.
pub open spec fn spliced(text: Seq<char>, ks: int, ke: int, replacement: Seq<char>) -> Seq<char> {
    text.take(ks) + replacement + text.skip(ke)
}

/// Character index of a byte offset (meaningful at boundaries).
pub open spec fn char_of(text: Seq<char>, b: int) -> int {
    crate::diagnostic::char_index_of(text, b)
}

/// The text an edit produces.
pub open spec fn edited_text(text: Seq<char>, edit: TextRange, replacement: Seq<char>) -> Seq<char> {
    spliced(
        text,
        char_of(text, edit.start as int),
        char_of(text, edit.end as int),
        replacement,
    )
}

/// The source file with the same id and name as `f`, and the given text.
pub open spec fn with_text(f: SourceFile, text: Seq<char>) -> SourceFile {
    choose|g: SourceFile| g@ == SourceView { id: f@.id, name: f@.name, text }
}

/// The change in byte length an edit makes.
pub open spec fn edit_delta(edit: HighlightEdit) -> int {
    byte_len(edit.replacement@) - (edit.range.end - edit.range.start)
}

/// An update keeps the old tokens and diagnostics before the byte where it starts relexing, and
/// reuses the old ones after the first relexed token that lines up with an old token past the
/// edit. This is what a full pass over the edited text gives when that pass has the kept tokens
/// and diagnostics before that byte and that token is not an error token.
pub open spec fn relex_keeps_prefix(source: SourceFile, edit: HighlightEdit) -> bool {
    let old = lexed_tokens(source@.text);
    let b = relex_start(old, edit.range);
    let text = edited_text(source@.text, edit.range, edit.replacement@);
    let k = char_of(text, b);
    let file = with_text(source, text);
    &&& lexed_tokens(text) == old.take(first_start_at_least(old, b, 0)) + tail_views(text, k)
    &&& lexed_diagnostics(file) == lexed_diagnostics(source).filter_map(keep_before(b)) + diags_of(
        file,
        lex_tail(text, k),
    )
    &&& first_sync_not_error(
        tail_views(text, k),
        old,
        first_start_at_least(old, edit.range.end as int, 0),
        edit_delta(edit),
    )
}

impl HighlightCache {
    #[verifier::type_invariant]
    closed spec fn inv(&self) -> bool {
        &&& self.lex_tokens@.len() > 0
        &&& tokens_ordered(token_views(self.lex_tokens@))
        &&& diags_ordered(diagnostic_views(self.diagnostics@))
        &&& self.highlight_tokens@ == highlight_of(token_views(self.lex_tokens@))
    }

    /// Builds a cache, deriving the highlight tokens from the lexer tokens.
    fn build(lex_tokens: Vec<Token>, diagnostics: Vec<Diagnostic>) -> (r: Self)
        requires
            lex_tokens@.len() > 0,
            tokens_ordered(token_views(lex_tokens@)),
            diags_ordered(diagnostic_views(diagnostics@)),
        ensures
            token_views(r.lex_tokens@) == token_views(lex_tokens@),
            diagnostic_views(r.diagnostics@) == diagnostic_views(diagnostics@),
            r.highlight_tokens@ == highlight_of(token_views(lex_tokens@)),
    {
        let highlight_tokens = highlight_tokens_from_lex_tokens(&lex_tokens);
        HighlightCache { lex_tokens, highlight_tokens, diagnostics }
    }

    /// Builds the cache of a full lexing pass.
    fn full(source: &SourceFile) -> (r: Self)
        ensures
            token_views(r.lex_tokens@) == lexed_tokens(source@.text),
            diagnostic_views(r.diagnostics@) == lexed_diagnostics(*source),
            r.highlight_tokens@ == highlight_of(token_views(r.lex_tokens@)),
    {
        let lex_result = lex_source(source);
        let _ = source.char_count();
        proof {
            lemma_lexed_wf(source@.text);
            lemma_lexed_diags_wf(*source);
        }
        HighlightCache::build(lex_result.tokens, lex_result.diagnostics)
    }
}

impl IncrementalHighlightSession {

    /// Current source snapshot.
    pub closed spec fn source_file(&self) -> SourceFile {
        self.source
    }

    /// Cached lexer tokens.
    pub closed spec fn lex_token_views(&self) -> Seq<TokenView> {
        token_views(self.cache.lex_tokens@)
    }

    /// Cached highlight tokens.
    pub closed spec fn highlight_view(&self) -> Seq<HighlightToken> {
        self.cache.highlight_tokens@
    }

    /// Cached diagnostics.
    pub closed spec fn diagnostics_view(&self) -> Seq<DiagnosticView> {
        diagnostic_views(self.cache.diagnostics@)
    }

    /// Current version.
    pub closed spec fn version_view(&self) -> u64 {
        self.version
    }

    /// A session always agrees with a full lexing pass over its current source.
    #[verifier::type_invariant]
    spec fn session_in_sync(&self) -> bool {
        self.in_sync()
    }

    /// The caches agree with a full lexing pass over the current source.
    pub open spec fn in_sync(&self) -> bool {
        &&& self.lex_token_views() == lexed_tokens(self.source_file()@.text)
        &&& self.diagnostics_view() == lexed_diagnostics(self.source_file())
        &&& self.highlight_view() == highlight_of(self.lex_token_views())
    }

    /// Whether [`Self::update`] can apply an edit: the version can still grow, the edited text
    /// stays within `isize::MAX` bytes, and a valid edit leaves the relexing start on a character
    /// boundary of the edited text.
    pub open spec fn edit_supported(&self, edit: HighlightEdit) -> bool {
        &&& self.version_view() < u64::MAX
        &&& byte_len(self.source_file()@.text) + byte_len(edit.replacement@) <= isize::MAX
        &&& self.source_file().is_valid_range_spec(edit.range) ==> is_boundary(
            edited_text(self.source_file()@.text, edit.range, edit.replacement@),
            relex_start(self.lex_token_views(), edit.range),
        )
    }

    /// Checks [`Self::edit_supported`].
    pub fn supports_edit(&self, edit: &HighlightEdit) -> (r: bool)
        ensures
            r == self.edit_supported(*edit),
    {
        proof {
            use_type_invariant(&self.cache);
            lemma_byte_len_is_encoding_len(edit.replacement@);
        }
        if self.version == u64::MAX {
            return false;
        }
        let len = self.source.len_bytes();
        let _ = self.source.char_count();
        let limit: usize = isize::MAX as usize;
        assert(limit == isize::MAX);
        match crate::text::byte_len_within(edit.replacement.as_str(), limit - len) {
            Some(_) => {},
            None => {
                return false;
            },
        }
        if !self.source.is_valid_range(edit.range) {
            return true;
        }
        let new_text = apply_replacement(&self.source, edit.range, edit.replacement.as_str());
        let start = safe_relex_start(&self.cache.lex_tokens, edit.range);
        let edited = SourceFile::new(self.source.id(), self.source.name(), new_text.as_str());
        edited.char_index_at(start).is_some()
    }

    /// Creates a session at version 0 by fully highlighting the initial source.
    pub fn new(source: SourceFile) -> (r: Self)
        ensures
            r.version_view() == 0,
            r.source_file()@ == source@,
            r.in_sync(),
    {
        let cache = HighlightCache::full(&source);
        IncrementalHighlightSession { source, cache, version: 0 }
    }

    /// Returns the current session version.
    pub fn version(&self) -> (r: u64)
        ensures
            r == self.version_view(),
    {
        self.version
    }

    /// Returns the current source snapshot.
    pub fn source(&self) -> (r: &SourceFile)
        ensures
            *r == self.source_file(),
    {
        &self.source
    }

    /// Returns the cached full lexer token stream, including trivia and EOF.
    pub fn lex_tokens(&self) -> (r: &[Token])
        ensures
            token_views(r@) == self.lex_token_views(),
            token_views(r@) == lexed_tokens(self.source_file()@.text),
    {
        proof {
            use_type_invariant(self);
        }
        self.cache.lex_tokens.as_slice()
    }

    /// Returns the cached full highlight token stream.
    pub fn tokens(&self) -> (r: &[HighlightToken])
        ensures
            r@ == self.highlight_view(),
            r@ == highlight_of(self.lex_token_views()),
            r@ == highlight_of(lexed_tokens(self.source_file()@.text)),
    {
        proof {
            use_type_invariant(&self.cache);
            use_type_invariant(self);
        }
        self.cache.highlight_tokens.as_slice()
    }

    /// Returns the cached lexer diagnostics.
    pub fn diagnostics(&self) -> (r: &[Diagnostic])
        ensures
            diagnostic_views(r@) == self.diagnostics_view(),
            diagnostic_views(r@) == lexed_diagnostics(self.source_file()),
    {
        proof {
            use_type_invariant(self);
        }
        self.cache.diagnostics.as_slice()
    }

    /// Replaces the entire source snapshot and increments the session version.
    pub fn reset(&mut self, source: SourceFile) -> (r: IncrementalHighlightUpdate)
        requires
            old(self).version_view() < u64::MAX,
        ensures
            final(self).version_view() == old(self).version_view() + 1,
            final(self).source_file()@ == source@,
            final(self).in_sync(),
            r.version == final(self).version_view(),
            r.changed_range == (TextRange { start: 0, end: byte_len(source@.text) as usize }),
            r.full_rehighlight,
            r.tokens@ == final(self).highlight_view(),
            diagnostic_views(r.diagnostics@) == final(self).diagnostics_view(),
    {
        let version = self.version + 1;
        let len = source.len_bytes();
        self.install_full(source, version, TextRange::new(0, len), true)
    }

    /// Applies one source replacement edit against the old session source.
    ///
    /// The edit range must be a valid UTF-8 byte range in the old source; otherwise
    /// [`IncrementalHighlightError::InvalidEditRange`] is returned and the session is unchanged.
    /// After every successful update the caches equal a full highlight of the edited text: when
    /// the patched tokens would differ from a full pass, the update falls back to a full pass
    /// and reports the whole text as changed. Otherwise the changed range starts where relexing
    /// starts and covers the replacement. A session in sync keeps the patch, and so does not
    /// fall back, whenever [`relex_keeps_prefix`] holds of the edit.
    #[verifier::spinoff_prover]
    #[verifier::rlimit(60)]
    pub fn update(&mut self, edit: HighlightEdit) -> (r: Result<IncrementalHighlightUpdate, IncrementalHighlightError>)
        requires
            old(self).edit_supported(edit),
        ensures
            r is Err <==> !old(self).source_file().is_valid_range_spec(edit.range),
            r matches Err(e) ==> {
                &&& e == (IncrementalHighlightError::InvalidEditRange {
                    range: edit.range,
                    source_len: byte_len(old(self).source_file()@.text) as usize,
                })
                &&& *final(self) == *old(self)
            },
            r matches Ok(u) ==> {
                &&& final(self).version_view() == old(self).version_view() + 1
                &&& final(self).source_file()@.id == old(self).source_file()@.id
                &&& final(self).source_file()@.name == old(self).source_file()@.name
                &&& final(self).source_file()@.text == edited_text(
                    old(self).source_file()@.text,
                    edit.range,
                    edit.replacement@,
                )
                &&& u.version == final(self).version_view()
                &&& u.tokens@ == final(self).highlight_view()
                &&& diagnostic_views(u.diagnostics@) == final(self).diagnostics_view()
                &&& u.full_rehighlight ==> {
                    &&& u.changed_range == (TextRange {
                        start: 0,
                        end: byte_len(final(self).source_file()@.text) as usize,
                    })
                    &&& final(self).in_sync()
                }
                &&& !u.full_rehighlight ==> {
                    &&& u.changed_range.start == relex_start(old(self).lex_token_views(), edit.range)
                    &&& u.changed_range.end >= edit.range.start + byte_len(edit.replacement@)
                }
            },
            r is Ok ==> final(self).in_sync(),
            old(self).in_sync() && relex_keeps_prefix(old(self).source_file(), edit) ==> (r matches Ok(u)
                ==> !u.full_rehighlight),
    {
        if !self.source.is_valid_range(edit.range) {
            let source_len = self.source.len_bytes();
            return Err(IncrementalHighlightError::InvalidEditRange { range: edit.range, source_len });
        }
        proof {
            use_type_invariant(&self.cache);
        }
        let version = self.version + 1;

        let old_source = self.source.clone();
        let old_tokens = copy_tokens(&self.cache.lex_tokens);
        let old_diagnostics = copy_diagnostics(&self.cache.diagnostics);
        let new_text = apply_replacement(&old_source, edit.range, edit.replacement.as_str());
        let new_source = SourceFile::new(old_source.id(), old_source.name(), new_text.as_str());
        proof {
            lemma_byte_len_is_encoding_len(edit.replacement@);
        }
        let replacement_len = edit.replacement.as_str().len();
        let delta = replacement_len as isize - edit.range.len() as isize;
        let relex_start = safe_relex_start(&old_tokens, edit.range);

        let old_relex_index = first_token_starting_at_or_after(&old_tokens, relex_start);
        let old_sync_index = first_token_starting_at_or_after(&old_tokens, edit.range.end);
        let prefix_tokens = copy_token_prefix(&old_tokens, old_relex_index);
        let prefix_diagnostics = diagnostics_starting_before(&old_diagnostics, relex_start);

        match relex_until_sync(&new_source, relex_start, &old_tokens, old_sync_index, delta) {
            Some(sync) => {
                let ghost sync_g = sync;
                let mut lex_tokens = prefix_tokens;
                let ghost patch_len = sync.patch_tokens@.len();
                let ghost patch_views = token_views(sync.patch_tokens@);
                let ghost prefix_views = token_views(lex_tokens@);
                append_tokens(&mut lex_tokens, sync.patch_tokens);
                proof {
                    assert(patch_views.len() == patch_len);
                    assert(token_views(lex_tokens@) == prefix_views + patch_views);
                    assert(token_views(lex_tokens@).len() == lex_tokens@.len());
                    assert(lex_tokens@.len() >= patch_len);
                }
                proof {
                    if patch_len == 0 {
                        assert(sync.old_suffix_index < old_tokens@.len());
                        assert(shifted_token(
                            old_tokens@[sync.old_suffix_index as int]@,
                            delta as int,
                        ) is Some);
                    }
                }
                append_shifted_tokens(&mut lex_tokens, &old_tokens, sync.old_suffix_index, delta);
                proof {
                    assert(lex_tokens@.len() > 0);
                }

                let mut diagnostics = prefix_diagnostics;
                append_diagnostics(&mut diagnostics, sync.patch_diagnostics);
                append_shifted_diagnostics(
                    &mut diagnostics,
                    &old_diagnostics,
                    sync.old_suffix_start,
                    delta,
                    &new_source,
                );
                proof {
                    if old(self).in_sync() && relex_keeps_prefix(old(self).source_file(), edit) {
                        assert(delta as int == edit_delta(edit));
                        lemma_patch_in_sync(old(self).source_file(), new_source, edit, sync_g);
                    }
                }
                let full = lex_source(&new_source);
                if !same_tokens(&lex_tokens, &full.tokens) {
                    let len = new_source.len_bytes();
                    return Ok(self.install_full(new_source, version, TextRange::new(0, len), true));
                }
                proof {
                    lemma_lexed_diags_wf(new_source);
                }

                let edited_end = edit.range.start + replacement_len;
                let end = if sync.new_suffix_start >= edited_end {
                    sync.new_suffix_start
                } else {
                    edited_end
                };
                let changed_range = TextRange::new(relex_start, end);
                Ok(self.install_patch(new_source, version, lex_tokens, full.diagnostics, changed_range))
            },
            None => {
                let len = new_source.len_bytes();
                Ok(self.install_full(new_source, version, TextRange::new(0, len), true))
            },
        }
    }

    /// Makes `source`, at `version`, the session's source, with caches from a full pass.
    fn install_full(&mut self, source: SourceFile, version: u64, changed_range: TextRange, full_rehighlight: bool) -> (r:
        IncrementalHighlightUpdate)
        ensures
            final(self).source_file() == source,
            final(self).version_view() == version,
            final(self).in_sync(),
            r.version == final(self).version_view(),
            r.changed_range == changed_range,
            r.full_rehighlight == full_rehighlight,
            r.tokens@ == final(self).highlight_view(),
            diagnostic_views(r.diagnostics@) == final(self).diagnostics_view(),
    {
        let cache = HighlightCache::full(&source);
        *self = IncrementalHighlightSession { source, cache, version };
        self.update_response(changed_range, full_rehighlight)
    }

    /// Makes `source`, at `version`, the session's source, with caches that a full pass over it
    /// gives.
    fn install_patch(
        &mut self,
        source: SourceFile,
        version: u64,
        lex_tokens: Vec<Token>,
        diagnostics: Vec<Diagnostic>,
        changed_range: TextRange,
    ) -> (r: IncrementalHighlightUpdate)
        requires
            token_views(lex_tokens@) == lexed_tokens(source@.text),
            diagnostic_views(diagnostics@) == lexed_diagnostics(source),
            byte_len(source@.text) <= usize::MAX,
        ensures
            final(self).source_file() == source,
            final(self).version_view() == version,
            final(self).in_sync(),
            r.version == final(self).version_view(),
            r.changed_range == changed_range,
            !r.full_rehighlight,
            r.tokens@ == final(self).highlight_view(),
            diagnostic_views(r.diagnostics@) == final(self).diagnostics_view(),
    {
        proof {
            lemma_lexed_wf(source@.text);
            lemma_lexed_diags_wf(source);
        }
        let cache = HighlightCache::build(lex_tokens, diagnostics);
        *self = IncrementalHighlightSession { source, cache, version };
        self.update_response(changed_range, false)
    }

    fn update_response(&self, changed_range: TextRange, full_rehighlight: bool) -> (r:
        IncrementalHighlightUpdate)
        ensures
            r.version == self.version_view(),
            r.changed_range == changed_range,
            r.full_rehighlight == full_rehighlight,
            r.tokens@ == self.highlight_view(),
            diagnostic_views(r.diagnostics@) == self.diagnostics_view(),
    {
        IncrementalHighlightUpdate {
            version: self.version,
            changed_range,
            tokens: copy_highlight_tokens(&self.cache.highlight_tokens),
            diagnostics: copy_diagnostics(&self.cache.diagnostics),
            full_rehighlight,
        }
    }
}

/// Two token streams with the same content.
fn same_tokens(a: &Vec<Token>, b: &Vec<Token>) -> (r: bool)
    ensures
        r == (token_views(a@) == token_views(b@)),
{
    if a.len() != b.len() {
        proof {
            assert(token_views(a@).len() != token_views(b@).len());
        }
        return false;
    }
    let mut i: usize = 0;
    while i < a.len()
        invariant
            a@.len() == b@.len(),
            i <= a@.len(),
            forall|k: int| 0 <= k < i ==> #[trigger] a@[k]@ == b@[k]@,
        decreases a@.len() - i,
    {
        if a[i].kind != b[i].kind || a[i].range.start != b[i].range.start || a[i].range.end != b[i].range.end
            || !str_eq(a[i].text.as_str(), b[i].text.as_str()) {
            proof {
                assert(token_views(a@)[i as int] != token_views(b@)[i as int]);
            }
            return false;
        }
        i = i + 1;
    }
    proof {
        assert(token_views(a@) =~= token_views(b@));
    }
    true
}

/// A session in sync shows what a full highlighting pass over its current source shows: the
/// highlight tokens and diagnostics of [`crate::highlight::highlight_source`].
pub proof fn lemma_in_sync_is_full_highlight(session: IncrementalHighlightSession)
    requires
        session.in_sync(),
    ensures
        session.highlight_view() == highlight_of(lexed_tokens(session.source_file()@.text)),
        session.diagnostics_view() == lexed_diagnostics(session.source_file()),
{
}

/// Lexer output always ends with the EOF token and has ordered token ranges.
pub proof fn lemma_lexed_wf(s: Seq<char>)
    requires
        byte_len(s) <= usize::MAX,
    ensures
        lexed_tokens(s).len() > 0,
        tokens_ordered(lexed_tokens(s)),
{
    let toks = crate::lexer::lex_spec(s);
    crate::lexer::lemma_lex_from_bounds(s, 0);
    assert forall|i: int| 0 <= i < lexed_tokens(s).len() implies #[trigger] lexed_tokens(
        s,
    )[i].range.start <= lexed_tokens(s)[i].range.end by {
        if i < crate::lexer::lex_from(s, 0).len() {
            assert(toks[i] == crate::lexer::lex_from(s, 0)[i]);
        }
        lemma_token_of_ordered(s, toks[i]);
    }
}

/// The byte range of a lexed token is ordered and sits at the token's character bounds.
proof fn lemma_token_of_ordered(s: Seq<char>, t: crate::lexer::LexTok)
    requires
        0 <= t.start <= t.end <= s.len(),
        byte_len(s) <= usize::MAX,
    ensures
        crate::lexer::token_of(s, t).range.start == byte_offset(s, t.start),
        crate::lexer::token_of(s, t).range.end == byte_offset(s, t.end),
        crate::lexer::token_of(s, t).range.start <= crate::lexer::token_of(s, t).range.end,
{
    lemma_byte_offset_mono(s, t.start, t.end);
    lemma_byte_offset_mono(s, t.end, s.len() as int);
    lemma_byte_offset_full(s);
}

/// Lexer diagnostics always carry ordered spans.
pub proof fn lemma_lexed_diags_wf(file: SourceFile)
    ensures
        diags_ordered(lexed_diagnostics(file)),
{
    lemma_diags_of_ordered(file, crate::lexer::lex_from(file@.text, 0));
}

/// Diagnostics reported for any token sequence have ordered spans.
proof fn lemma_diags_of_ordered(file: SourceFile, toks: Seq<crate::lexer::LexTok>)
    ensures
        diags_ordered(crate::lexer::diags_of(file, toks)),
    decreases toks.len(),
{
    if toks.len() > 0 {
        lemma_diags_of_ordered(file, toks.drop_last());
    }
}

/// Every token range is ordered.
pub open spec fn tokens_ordered(toks: Seq<TokenView>) -> bool {
    forall|i: int| 0 <= i < toks.len() ==> #[trigger] toks[i].range.start <= toks[i].range.end
}

/// A diagnostic's span, when present, is ordered.
pub open spec fn span_ordered(d: DiagnosticView) -> bool {
    match d.span {
        Some(sp) => sp.range.start <= sp.range.end,
        None => true,
    }
}

/// Every diagnostic span is ordered.
pub open spec fn diags_ordered(ds: Seq<DiagnosticView>) -> bool {
    forall|i: int| 0 <= i < ds.len() ==> span_ordered(#[trigger] ds[i])
}

/// A token moved by `delta` bytes.
pub open spec fn shifted_token(t: TokenView, delta: int) -> Option<TokenView> {
    match shifted_range(t.range, delta) {
        Some(r) => Some(TokenView { kind: t.kind, range: r, text: t.text }),
        None => None,
    }
}

pub open spec fn shift_tokens_by(delta: int) -> spec_fn(TokenView) -> Option<TokenView> {
    |t: TokenView| shifted_token(t, delta)
}

/// A new token matches an old token moved by `delta` bytes.
pub open spec fn token_matches(new: TokenView, old: TokenView, delta: int) -> bool {
    &&& old.kind == new.kind
    &&& old.text == new.text
    &&& shifted_range(old.range, delta) == Some(new.range)
}

/// A diagnostic moved by `delta` bytes and re-resolved against `file`.
pub open spec fn shifted_diagnostic(d: DiagnosticView, delta: int, file: SourceFile) -> Option<
    DiagnosticView,
> {
    match d.span {
        None => None,
        Some(sp) => match shifted_range(sp.range, delta) {
            None => None,
            Some(r) => match resolved_span(file, r) {
                None => None,
                Some(ns) => Some(
                    DiagnosticView {
                        code: d.code,
                        severity: d.severity,
                        message: d.message,
                        span: Some(ns),
                        notes: d.notes,
                    },
                ),
            },
        },
    }
}

/// Keeps a diagnostic whose span starts before byte `b`.
pub open spec fn keep_if_before(d: DiagnosticView, b: int) -> Option<DiagnosticView> {
    match d.span {
        Some(sp) => if sp.range.start < b {
            Some(d)
        } else {
            None
        },
        None => None,
    }
}

pub open spec fn keep_before(b: int) -> spec_fn(DiagnosticView) -> Option<DiagnosticView> {
    |d: DiagnosticView| keep_if_before(d, b)
}

/// Shifts a diagnostic whose span starts at or after byte `from`.
pub open spec fn shift_if_after(d: DiagnosticView, from: int, delta: int, file: SourceFile) -> Option<
    DiagnosticView,
> {
    match d.span {
        Some(sp) => if sp.range.start >= from {
            shifted_diagnostic(d, delta, file)
        } else {
            None
        },
        None => None,
    }
}

pub open spec fn shift_after(from: int, delta: int, file: SourceFile) -> spec_fn(
    DiagnosticView,
) -> Option<DiagnosticView> {
    |d: DiagnosticView| shift_if_after(d, from, delta, file)
}

struct IncrementalSync {
    patch_tokens: Vec<Token>,
    patch_diagnostics: Vec<Diagnostic>,
    old_suffix_index: usize,
    old_suffix_start: usize,
    new_suffix_start: usize,
    /// Character position the relexing started from.
    start_char: Ghost<int>,
    /// Character position of the token that lined up with an old token.
    sync_char: Ghost<int>,
}

fn copy_token(token: &Token) -> (r: Token)
    ensures
        r@ == token@,
{
    Token { kind: token.kind, range: token.range, text: token.text.clone() }
}

fn copy_token_prefix(tokens: &Vec<Token>, n: usize) -> (r: Vec<Token>)
    requires
        n <= tokens@.len(),
    ensures
        token_views(r@) == token_views(tokens@).take(n as int),
{
    let mut out: Vec<Token> = Vec::new();
    let mut i: usize = 0;
    proof {
        assert(token_views(out@) =~= token_views(tokens@).take(0));
    }
    while i < n
        invariant
            n <= tokens@.len(),
            i <= n,
            token_views(out@) == token_views(tokens@).take(i as int),
        decreases n - i,
    {
        let ghost prev = out@;
        let t = copy_token(&tokens[i]);
        out.push(t);
        proof {
            assert(out@ == prev.push(t));
            assert(token_views(out@) =~= token_views(prev).push(t@));
            assert(token_views(tokens@).take(i + 1) =~= token_views(tokens@).take(i as int).push(
                tokens@[i as int]@,
            ));
        }
        i = i + 1;
    }
    out
}

fn copy_tokens(tokens: &Vec<Token>) -> (r: Vec<Token>)
    ensures
        token_views(r@) == token_views(tokens@),
{
    let r = copy_token_prefix(tokens, tokens.len());
    proof {
        assert(token_views(tokens@).take(tokens@.len() as int) =~= token_views(tokens@));
    }
    r
}

fn copy_diagnostics(ds: &Vec<Diagnostic>) -> (r: Vec<Diagnostic>)
    ensures
        diagnostic_views(r@) == diagnostic_views(ds@),
{
    let mut out: Vec<Diagnostic> = Vec::new();
    let mut i: usize = 0;
    proof {
        assert(diagnostic_views(out@) =~= diagnostic_views(ds@).take(0));
    }
    while i < ds.len()
        invariant
            i <= ds@.len(),
            diagnostic_views(out@) == diagnostic_views(ds@).take(i as int),
        decreases ds@.len() - i,
    {
        let ghost prev = out@;
        let d = ds[i].copy_diagnostic();
        out.push(d);
        proof {
            assert(out@ == prev.push(d));
            assert(diagnostic_views(out@) =~= diagnostic_views(prev).push(d@));
            assert(diagnostic_views(ds@).take(i + 1) =~= diagnostic_views(ds@).take(i as int).push(
                ds@[i as int]@,
            ));
        }
        i = i + 1;
    }
    proof {
        assert(diagnostic_views(ds@).take(ds@.len() as int) =~= diagnostic_views(ds@));
    }
    out
}

fn copy_highlight_tokens(tokens: &Vec<HighlightToken>) -> (r: Vec<HighlightToken>)
    ensures
        r@ == tokens@,
{
    let mut out: Vec<HighlightToken> = Vec::new();
    let mut i: usize = 0;
    while i < tokens.len()
        invariant
            i <= tokens@.len(),
            out@ == tokens@.take(i as int),
        decreases tokens@.len() - i,
    {
        out.push(tokens[i]);
        i = i + 1;
        proof {
            assert(out@ =~= tokens@.take(i as int));
        }
    }
    proof {
        assert(tokens@.take(tokens@.len() as int) =~= tokens@);
    }
    out
}

/// Diagnostics whose span starts before `offset`, in order.
fn diagnostics_starting_before(ds: &Vec<Diagnostic>, offset: usize) -> (r: Vec<Diagnostic>)
    ensures
        diagnostic_views(r@) == diagnostic_views(ds@).filter_map(keep_before(offset as int)),
        diags_ordered(diagnostic_views(ds@)) ==> diags_ordered(diagnostic_views(r@)),
{
    let ghost views = diagnostic_views(ds@);
    let ghost f = keep_before(offset as int);
    let mut out: Vec<Diagnostic> = Vec::new();
    let mut i: usize = 0;
    proof {
        assert(views.take(0) =~= Seq::<DiagnosticView>::empty());
        assert(diagnostic_views(out@) =~= Seq::<DiagnosticView>::empty());
    }
    while i < ds.len()
        invariant
            i <= ds@.len(),
            views == diagnostic_views(ds@),
            f == keep_before(offset as int),
            diagnostic_views(out@) == views.take(i as int).filter_map(f),
            diags_ordered(views) ==> diags_ordered(diagnostic_views(out@)),
        decreases ds@.len() - i,
    {
        let keep = match &ds[i].span {
            Some(sp) => sp.range.start < offset,
            None => false,
        };
        let ghost before = out@;
        if keep {
            out.push(ds[i].copy_diagnostic());
        }
        proof {
            views.lemma_filter_map_take_succ(f, i as int);
            assert(views[i as int] == ds@[i as int]@);
            if keep {
                assert(diagnostic_views(out@) =~= diagnostic_views(before).push(ds@[i as int]@));
            } else {
                assert(diagnostic_views(out@) =~= diagnostic_views(before));
            }
        }
        i = i + 1;
        proof {
            assert(diagnostic_views(out@) =~= views.take(i as int).filter_map(f));
        }
    }
    proof {
        assert(views.take(ds@.len() as int) =~= views);
    }
    out
}

fn append_tokens(out: &mut Vec<Token>, extra: Vec<Token>)
    ensures
        token_views(final(out)@) == token_views(old(out)@) + token_views(extra@),
{
    let ghost added = extra@;
    let mut extra = extra;
    out.append(&mut extra);
    proof {
        assert(token_views(out@) =~= token_views(old(out)@) + token_views(added));
    }
}

fn append_diagnostics(out: &mut Vec<Diagnostic>, extra: Vec<Diagnostic>)
    ensures
        diagnostic_views(final(out)@) == diagnostic_views(old(out)@) + diagnostic_views(extra@),
{
    let ghost added = extra@;
    let mut extra = extra;
    out.append(&mut extra);
    proof {
        assert(diagnostic_views(out@) =~= diagnostic_views(old(out)@) + diagnostic_views(added));
    }
}

/// Appends the old tokens from index `from` on, each moved by `delta` bytes.
fn append_shifted_tokens(out: &mut Vec<Token>, old_tokens: &Vec<Token>, from: usize, delta: isize)
    requires
        from <= old_tokens@.len(),
        tokens_ordered(token_views(old_tokens@)),
    ensures
        token_views(final(out)@) == token_views(old(out)@) + token_views(old_tokens@).skip(
            from as int,
        ).filter_map(shift_tokens_by(delta as int)),
        tokens_ordered(token_views(old(out)@)) ==> tokens_ordered(token_views(final(out)@)),
        final(out)@.len() >= old(out)@.len(),
        from < old_tokens@.len() && shifted_token(old_tokens@[from as int]@, delta as int) is Some
            ==> final(out)@.len() > old(out)@.len(),
{
    let ghost base = token_views(out@);
    let ghost base_len = out@.len();
    let ghost s = token_views(old_tokens@).skip(from as int);
    let ghost f = shift_tokens_by(delta as int);
    let mut i: usize = from;
    proof {
        assert(s.take(0) =~= Seq::<TokenView>::empty());
        assert(base + s.take(0).filter_map(f) =~= base);
    }
    while i < old_tokens.len()
        invariant
            from <= i <= old_tokens@.len(),
            base == token_views(old(out)@),
            base_len == old(out)@.len(),
            s == token_views(old_tokens@).skip(from as int),
            f == shift_tokens_by(delta as int),
            tokens_ordered(token_views(old_tokens@)),
            token_views(out@) == base + s.take(i - from).filter_map(f),
            tokens_ordered(base) ==> tokens_ordered(token_views(out@)),
            out@.len() >= base_len,
            i > from && shifted_token(old_tokens@[from as int]@, delta as int) is Some ==> out@.len()
                > base_len,
        decreases old_tokens@.len() - i,
    {
        let ghost before = out@;
        match shift_token(&old_tokens[i], delta) {
            Some(t) => {
                proof {
                    let ov = token_views(old_tokens@)[i as int];
                    assert(ov == old_tokens@[i as int]@);
                    assert(ov.range.start <= ov.range.end);
                    assert(t@.range.start <= t@.range.end);
                }
                let ghost tv = t@;
                out.push(t);
                proof {
                    assert(token_views(out@) =~= token_views(before).push(tv));
                    if tokens_ordered(base) {
                        assert forall|k: int| 0 <= k < token_views(out@).len() implies #[trigger] token_views(
                            out@,
                        )[k].range.start <= token_views(out@)[k].range.end by {
                            if k < before.len() {
                                assert(token_views(out@)[k] == token_views(before)[k]);
                            }
                        }
                    }
                }
            },
            None => {},
        }
        proof {
            s.lemma_filter_map_take_succ(f, i - from);
            assert(s[i - from] == old_tokens@[i as int]@);
            assert(token_views(old_tokens@)[i as int] == old_tokens@[i as int]@);
            if out@.len() > before.len() {
                assert(token_views(out@) =~= token_views(before).push(out@.last()@));
            } else {
                assert(out@ == before);
            }
        }
        i = i + 1;
        proof {
            assert(token_views(out@) =~= base + s.take(i - from).filter_map(f));
        }
    }
    proof {
        assert(s.take(old_tokens@.len() - from) =~= s);
    }
}

/// Appends the old diagnostics that start at or after `from`, each moved by `delta` bytes.
fn append_shifted_diagnostics(
    out: &mut Vec<Diagnostic>,
    old_diagnostics: &Vec<Diagnostic>,
    from: usize,
    delta: isize,
    source: &SourceFile,
)
    ensures
        diagnostic_views(final(out)@) == diagnostic_views(old(out)@) + diagnostic_views(
            old_diagnostics@,
        ).filter_map(shift_after(from as int, delta as int, *source)),
        diags_ordered(diagnostic_views(old(out)@)) ==> diags_ordered(
            diagnostic_views(final(out)@),
        ),
{
    let ghost base = diagnostic_views(out@);
    let ghost s = diagnostic_views(old_diagnostics@);
    let ghost f = shift_after(from as int, delta as int, *source);
    let mut i: usize = 0;
    proof {
        assert(s.take(0) =~= Seq::<DiagnosticView>::empty());
        assert(base + s.take(0).filter_map(f) =~= base);
    }
    while i < old_diagnostics.len()
        invariant
            i <= old_diagnostics@.len(),
            base == diagnostic_views(old(out)@),
            s == diagnostic_views(old_diagnostics@),
            f == shift_after(from as int, delta as int, *source),
            diagnostic_views(out@) == base + s.take(i as int).filter_map(f),
            diags_ordered(base) ==> diags_ordered(diagnostic_views(out@)),
        decreases old_diagnostics@.len() - i,
    {
        let d = &old_diagnostics[i];
        let ghost before = out@;
        let after = match &d.span {
            Some(sp) => sp.range.start >= from,
            None => false,
        };
        if after {
            match shift_diagnostic(d, delta, source) {
                Some(shifted) => {
                    out.push(shifted);
                },
                None => {},
            }
        }
        proof {
            s.lemma_filter_map_take_succ(f, i as int);
            assert(s[i as int] == old_diagnostics@[i as int]@);
            if out@.len() > before.len() {
                assert(diagnostic_views(out@) =~= diagnostic_views(before).push(out@.last()@));
            } else {
                assert(out@ == before);
            }
        }
        i = i + 1;
        proof {
            assert(diagnostic_views(out@) =~= base + s.take(i as int).filter_map(f));
        }
    }
    proof {
        assert(s.take(old_diagnostics@.len() as int) =~= s);
    }
}

/// The new text after replacing a valid byte range.
fn apply_replacement(source: &SourceFile, range: TextRange, replacement: &str) -> (r: String)
    requires
        source.is_valid_range_spec(range),
    ensures
        r@ == edited_text(source@.text, range, replacement@),
        byte_len(r@) + (range.end - range.start) == byte_len(source@.text) + byte_len(
            replacement@,
        ),
        range.start + byte_len(replacement@) <= byte_len(r@),
{
    let ghost text = source@.text;
    let ks = match source.char_index_at(range.start) {
        Some(k) => k,
        None => {
            proof {
                assert(false);
            }
            0
        },
    };
    let ke = match source.char_index_at(range.end) {
        Some(k) => k,
        None => {
            proof {
                assert(false);
            }
            0
        },
    };
    let n = source.char_count();
    proof {
        crate::diagnostic::lemma_char_index_of(text, ks as int);
        crate::diagnostic::lemma_char_index_of(text, ke as int);
        if ke < ks {
            lemma_byte_offset_strict(text, ke as int, ks as int);
        }
    }
    let mut patched = String::new();
    patched.append(source.char_slice(0, ks));
    patched.append(replacement);
    patched.append(source.char_slice(ke, n));
    proof {
        assert(text.subrange(0, ks as int) =~= text.take(ks as int));
        assert(text.subrange(ke as int, n as int) =~= text.skip(ke as int));
        assert(patched@ =~= spliced(text, ks as int, ke as int, replacement@));
        let a = text.take(ks as int);
        let m = text.subrange(ks as int, ke as int);
        let b = text.skip(ke as int);
        assert(text.take(ke as int) =~= a + m);
        assert(text =~= (a + m) + b);
        lemma_byte_len_concat(a, m);
        lemma_byte_len_concat(a + m, b);
        lemma_byte_len_concat(a, replacement@);
        lemma_byte_len_concat(a + replacement@, b);
        assert(patched@ =~= (a + replacement@) + b);
    }
    patched
}

/// Byte offset from which the lexer is rerun after an edit.
fn safe_relex_start(tokens: &Vec<Token>, edit_range: TextRange) -> (r: usize)
    requires
        tokens@.len() > 0,
    ensures
        r == relex_start(token_views(tokens@), edit_range),
{
    let ghost v = token_views(tokens@);
    let mut i: usize = 0;
    while i < tokens.len()
        invariant
            i <= tokens@.len(),
            v == token_views(tokens@),
            first_fallback(v, edit_range, 0) == first_fallback(v, edit_range, i as int),
        decreases tokens@.len() - i,
    {
        if should_fallback_to_token_start(&tokens[i], edit_range) {
            return tokens[i].range.start;
        }
        i = i + 1;
    }
    let edit_start = edit_range.start;
    let mut j: usize = 0;
    while j < tokens.len() && tokens[j].range.end < edit_start
        invariant
            j <= tokens@.len(),
            v == token_views(tokens@),
            first_end_at_least(v, edit_start as int, 0) == first_end_at_least(
                v,
                edit_start as int,
                j as int,
            ),
        decreases tokens@.len() - j,
    {
        j = j + 1;
    }
    let mut token_index = if j < tokens.len() {
        j
    } else {
        tokens.len() - 1
    };
    if token_index > 0 {
        token_index = token_index - 1;
    }
    let token = &tokens[token_index];
    if token.kind != TokenKind::Eof {
        token.range.start
    } else {
        edit_start
    }
}

fn should_fallback_to_token_start(token: &Token, edit_range: TextRange) -> (r: bool)
    ensures
        r == (fallback_kind(token.kind) && ranges_touch(token.range, edit_range)),
{
    matches!(token.kind, TokenKind::BlockComment | TokenKind::StringLiteral | TokenKind::Error)
        && ranges_touch_or_overlap(token.range, edit_range)
}

fn ranges_touch_or_overlap(left: TextRange, right: TextRange) -> (r: bool)
    ensures
        r == ranges_touch(left, right),
{
    left.start <= right.end && right.start <= left.end
}

fn first_token_starting_at_or_after(tokens: &Vec<Token>, offset: usize) -> (r: usize)
    ensures
        r == first_start_at_least(token_views(tokens@), offset as int, 0),
        r <= tokens@.len(),
{
    let ghost v = token_views(tokens@);
    let mut i: usize = 0;
    while i < tokens.len()
        invariant
            i <= tokens@.len(),
            v == token_views(tokens@),
            first_start_at_least(v, offset as int, 0) == first_start_at_least(
                v,
                offset as int,
                i as int,
            ),
        decreases tokens@.len() - i,
    {
        if tokens[i].range.start >= offset {
            return i;
        }
        i = i + 1;
    }
    tokens.len()
}

/// Relexes from `relex_start` until a new token lines up with a shifted old token, or EOF.
fn relex_until_sync(
    source: &SourceFile,
    relex_start: usize,
    old_tokens: &Vec<Token>,
    old_sync_index: usize,
    delta: isize,
) -> (r: Option<IncrementalSync>)
    requires
        is_boundary(source@.text, relex_start as int),
        old_sync_index <= old_tokens@.len(),
    ensures
        r is Some,
        r matches Some(sync) ==> {
            &&& tokens_ordered(token_views(sync.patch_tokens@))
            &&& diags_ordered(diagnostic_views(sync.patch_diagnostics@))
            &&& sync.old_suffix_index <= old_tokens@.len()
            &&& relex_start <= sync.new_suffix_start
            &&& (sync.patch_tokens@.len() > 0 || (sync.old_suffix_index < old_tokens@.len()
                && shifted_token(old_tokens@[sync.old_suffix_index as int]@, delta as int) is Some))
            &&& relexed_until_sync(
                *source,
                sync,
                token_views(old_tokens@),
                old_sync_index as int,
                delta as int,
            )
            &&& byte_offset(source@.text, sync.start_char@) == relex_start
        },
{
    let ghost s = source@.text;
    let _ = source.char_count();
    let mut lexer = Lexer::with_offset(source, relex_start);
    let ghost p0 = lexer.position();
    let mut patch_tokens: Vec<Token> = Vec::new();
    let mut patch_diagnostics: Vec<Diagnostic> = Vec::new();
    proof {
        lexer.lemma_wf();
    }
    loop
        invariant
            lexer.wf(),
            lexer.file() == *source,
            s == source@.text,
            !lexer.is_finished(),
            lexer.pending_tokens().len() == 0,
            lexer.pending_diagnostics().len() == 0,
            0 <= p0 <= lexer.position() <= s.len(),
            byte_offset(s, p0) == relex_start,
            byte_len(s) <= isize::MAX,
            tokens_ordered(token_views(patch_tokens@)),
            diags_ordered(diagnostic_views(patch_diagnostics@)),
            old_sync_index <= old_tokens@.len(),
            token_views(patch_tokens@) + tail_views(s, lexer.position()) == tail_views(s, p0),
            diagnostic_views(patch_diagnostics@) + diags_of(*source, lex_tail(s, lexer.position()))
                == diags_of(*source, lex_tail(s, p0)),
            forall|t: int, j: int|
                0 <= t < patch_tokens@.len() && old_sync_index <= j < old_tokens@.len()
                    ==> !token_matches(
                    #[trigger] token_views(patch_tokens@)[t],
                    #[trigger] old_tokens@[j]@,
                    delta as int,
                ),
        decreases s.len() - lexer.position(),
    {
        proof {
            lexer.lemma_wf();
        }
        let ghost i = lexer.position();
        let new_token = match lexer.next_token() {
            Some(t) => t,
            None => {
                return None;
            },
        };
        proof {
            lexer.lemma_wf();
            if i < s.len() {
                crate::lexer::lemma_lex_from_step(s, i);
                let e = i + crate::lexer::scan(s.skip(i)).1;
                lemma_token_of_ordered(
                    s,
                    crate::lexer::LexTok { kind: crate::lexer::scan(s.skip(i)).0, start: i, end: e },
                );
                lemma_diags_single_ordered(*source, i, e);
            } else {
                lemma_token_of_ordered(
                    s,
                    crate::lexer::LexTok { kind: TokenKind::Eof, start: i, end: i },
                );
            }
            lemma_byte_offset_mono(s, p0, i);
            assert(new_token.range.start == byte_offset(s, i));
            assert(new_token.range.start <= new_token.range.end);
            lemma_relex_step(*source, i);
        }
        let ghost patch_before = token_views(patch_tokens@);
        let drained = lexer.drain_diagnostics();
        append_diagnostics(&mut patch_diagnostics, drained);
        proof {
            if i < s.len() {
                assert(diagnostic_views(patch_diagnostics@) + diags_of(
                    *source,
                    lex_tail(s, lexer.position()),
                ) =~= diags_of(*source, lex_tail(s, p0)));
            } else {
                assert(diagnostic_views(patch_diagnostics@) =~= diags_of(*source, lex_tail(s, p0)));
            }
        }
        match find_sync_token(&new_token, old_tokens, old_sync_index, delta) {
            Some(old_suffix_index) => {
                let old_suffix_start = old_tokens[old_suffix_index].range.start;
                let new_suffix_start = new_token.range.start;
                let sync = IncrementalSync {
                    patch_tokens,
                    patch_diagnostics,
                    old_suffix_index,
                    old_suffix_start,
                    new_suffix_start,
                    start_char: Ghost(p0),
                    sync_char: Ghost(i),
                };
                proof {
                    if i < s.len() {
                        assert(lex_tail(s, i).drop_first() =~= lex_tail(s, lexer.position()));
                    } else {
                        assert(lex_tail(s, i).drop_first() =~= Seq::<crate::lexer::LexTok>::empty());
                    }
                }
                return Some(sync);
            },
            None => {},
        }
        let is_eof = new_token.kind == TokenKind::Eof;
        let ghost prev = patch_tokens@;
        patch_tokens.push(new_token);
        proof {
            assert(token_views(patch_tokens@) =~= token_views(prev).push(new_token@));
            if i < s.len() {
                crate::lex_laws::lemma_scan_not_eof(s.skip(i));
                assert(token_views(patch_tokens@) + tail_views(s, lexer.position()) =~= tail_views(
                    s,
                    p0,
                ));
            } else {
                assert(token_views(patch_tokens@) =~= tail_views(s, p0));
            }
            assert forall|t: int, j: int|
                0 <= t < patch_tokens@.len() && old_sync_index <= j < old_tokens@.len()
                    implies !token_matches(
                    #[trigger] token_views(patch_tokens@)[t],
                    #[trigger] old_tokens@[j]@,
                    delta as int,
                ) by {
                if t < prev.len() {
                    assert(token_views(patch_tokens@)[t] == token_views(prev)[t]);
                }
            }
        }
        if is_eof {
            let new_suffix_start = source.len_bytes();
            proof {
                lemma_byte_offset_full(s);
                lemma_byte_offset_mono(s, p0, s.len() as int);
            }
            return Some(
                IncrementalSync {
                    patch_tokens,
                    patch_diagnostics,
                    old_suffix_index: old_tokens.len(),
                    old_suffix_start: usize::MAX,
                    new_suffix_start,
                    start_char: Ghost(p0),
                    sync_char: Ghost(s.len() as int),
                },
            );
        }
    }
}

/// One lexer step at position `i` takes the first token of the tail from `i` and leaves the
/// tail from its end.
proof fn lemma_relex_step(file: SourceFile, i: int)
    requires
        0 <= i <= file@.text.len(),
    ensures
        ({
            let s = file@.text;
            i < s.len() ==> {
                let t = crate::lexer::LexTok {
                    kind: crate::lexer::scan(s.skip(i)).0,
                    start: i,
                    end: i + crate::lexer::scan(s.skip(i)).1,
                };
                &&& tail_views(s, i) == seq![token_of(s, t)] + tail_views(s, t.end)
                &&& diags_of(file, lex_tail(s, i)) == diags_of(file, seq![t]) + diags_of(
                    file,
                    lex_tail(s, t.end),
                )
                &&& lex_tail(s, i) == seq![t] + lex_tail(s, t.end)
            }
        }),
        ({
            let s = file@.text;
            let eof = crate::lexer::LexTok { kind: TokenKind::Eof, start: i, end: i };
            i == s.len() ==> {
                &&& tail_views(s, i) == seq![token_of(s, eof)]
                &&& diags_of(file, lex_tail(s, i)) == Seq::<DiagnosticView>::empty()
                &&& lex_tail(s, i) == seq![eof]
            }
        }),
{
    let s = file@.text;
    if i < s.len() {
        crate::lexer::lemma_lex_from_step(s, i);
        let t = crate::lexer::LexTok {
            kind: crate::lexer::scan(s.skip(i)).0,
            start: i,
            end: i + crate::lexer::scan(s.skip(i)).1,
        };
        assert(lex_tail(s, i) =~= seq![t] + lex_tail(s, t.end));
        assert(tail_views(s, i) =~= seq![token_of(s, t)] + tail_views(s, t.end));
        crate::lexer::lemma_diags_of_concat(file, seq![t], lex_tail(s, t.end));
    } else {
        let eof = crate::lexer::LexTok { kind: TokenKind::Eof, start: i, end: i };
        assert(lex_from(s, i) =~= Seq::<crate::lexer::LexTok>::empty());
        assert(lex_tail(s, i) =~= seq![eof]);
        assert(tail_views(s, i) =~= seq![token_of(s, eof)]);
        reveal_with_fuel(crate::lexer::diags_of, 2);
    }
}

/// What relexing until the tokens line up again gave: the relexed tokens and their
/// diagnostics, up to the first token that lines up with an old one from `from` on, or the
/// whole tail when none does.
spec fn relexed_until_sync(
    source: SourceFile,
    sync: IncrementalSync,
    old: Seq<TokenView>,
    from: int,
    delta: int,
) -> bool {
    let s = source@.text;
    let k0 = sync.start_char@;
    let i = sync.sync_char@;
    let m = sync.old_suffix_index as int;
    &&& 0 <= k0 <= s.len()
    &&& m == old.len() ==> {
        &&& sync.old_suffix_start == usize::MAX
        &&& token_views(sync.patch_tokens@) == tail_views(s, k0)
        &&& diagnostic_views(sync.patch_diagnostics@) == diags_of(source, lex_tail(s, k0))
    }
    &&& m < old.len() ==> {
        &&& k0 <= i <= s.len()
        &&& from <= m
        &&& token_views(sync.patch_tokens@) + tail_views(s, i) == tail_views(s, k0)
        &&& token_matches(tail_views(s, i)[0], old[m], delta)
        &&& sync.old_suffix_start == old[m].range.start
        &&& sync.new_suffix_start == tail_views(s, i)[0].range.start
        &&& diagnostic_views(sync.patch_diagnostics@) + diags_of(source, lex_tail(s, i).drop_first())
            == diags_of(source, lex_tail(s, k0))
        &&& forall|t: int, j: int|
            0 <= t < sync.patch_tokens@.len() && from <= j < old.len() ==> !token_matches(
                #[trigger] token_views(sync.patch_tokens@)[t],
                #[trigger] old[j],
                delta,
            )
    }
}

/// The diagnostics reported for one lexed token have ordered spans.
proof fn lemma_diags_single_ordered(file: SourceFile, start: int, end: int)
    ensures
        diags_ordered(
            crate::lexer::diags_of(
                file,
                seq![
                    crate::lexer::LexTok {
                        kind: crate::lexer::scan(file@.text.skip(start)).0,
                        start,
                        end,
                    },
                ],
            ),
        ),
{
    let t = crate::lexer::LexTok { kind: crate::lexer::scan(file@.text.skip(start)).0, start, end };
    crate::lexer::lemma_diags_of_push(file, Seq::empty(), t);
    assert(Seq::<crate::lexer::LexTok>::empty().push(t) =~= seq![t]);
    assert(crate::lexer::diags_of(file, Seq::<crate::lexer::LexTok>::empty()) =~= Seq::<
        DiagnosticView,
    >::empty());
}

/// Index of the first old token from `old_sync_index` on that the new token matches.
fn find_sync_token(
    new_token: &Token,
    old_tokens: &Vec<Token>,
    old_sync_index: usize,
    delta: isize,
) -> (r: Option<usize>)
    requires
        old_sync_index <= old_tokens@.len(),
    ensures
        r matches Some(k) ==> {
            &&& old_sync_index <= k < old_tokens@.len()
            &&& token_matches(new_token@, old_tokens@[k as int]@, delta as int)
            &&& forall|j: int|
                old_sync_index <= j < k ==> !token_matches(
                    new_token@,
                    #[trigger] old_tokens@[j]@,
                    delta as int,
                )
        },
        r is None ==> forall|j: int|
            old_sync_index <= j < old_tokens@.len() ==> !token_matches(
                new_token@,
                #[trigger] old_tokens@[j]@,
                delta as int,
            ),
{
    let mut i: usize = old_sync_index;
    while i < old_tokens.len()
        invariant
            old_sync_index <= i <= old_tokens@.len(),
            forall|j: int|
                old_sync_index <= j < i ==> !token_matches(
                    new_token@,
                    #[trigger] old_tokens@[j]@,
                    delta as int,
                ),
        decreases old_tokens@.len() - i,
    {
        if token_matches_shifted_old(new_token, &old_tokens[i], delta) {
            return Some(i);
        }
        i = i + 1;
    }
    None
}

fn token_matches_shifted_old(new_token: &Token, old_token: &Token, delta: isize) -> (r: bool)
    ensures
        r == token_matches(new_token@, old_token@, delta as int),
{
    if old_token.kind != new_token.kind {
        return false;
    }
    if old_token.text != new_token.text {
        return false;
    }
    match shift_range(old_token.range, delta) {
        Some(range) => range.start == new_token.range.start && range.end == new_token.range.end,
        None => false,
    }
}

fn shift_token(token: &Token, delta: isize) -> (r: Option<Token>)
    ensures
        r is Some <==> shifted_token(token@, delta as int) is Some,
        r matches Some(t) ==> shifted_token(token@, delta as int) == Some(t@),
{
    match shift_range(token.range, delta) {
        Some(range) => Some(Token { kind: token.kind, range, text: token.text.clone() }),
        None => None,
    }
}

fn shift_diagnostic(diagnostic: &Diagnostic, delta: isize, source: &SourceFile) -> (r: Option<Diagnostic>)
    ensures
        r is Some <==> shifted_diagnostic(diagnostic@, delta as int, *source) is Some,
        r matches Some(d) ==> shifted_diagnostic(diagnostic@, delta as int, *source) == Some(d@),
{
    let span = match &diagnostic.span {
        Some(span) => span,
        None => {
            return None;
        },
    };
    let range = match shift_range(span.range, delta) {
        Some(range) => range,
        None => {
            return None;
        },
    };
    let resolved = match DiagnosticSpan::from_source(source, range) {
        Some(resolved) => resolved,
        None => {
            return None;
        },
    };
    let mut shifted = diagnostic.copy_diagnostic();
    shifted.span = Some(resolved);
    Some(shifted)
}

fn shift_range(range: TextRange, delta: isize) -> (r: Option<TextRange>)
    ensures
        r == shifted_range(range, delta as int),
{
    let start = match shift_offset(range.start, delta) {
        Some(start) => start,
        None => {
            return None;
        },
    };
    let end = match shift_offset(range.end, delta) {
        Some(end) => end,
        None => {
            return None;
        },
    };
    Some(TextRange { start, end })
}

fn shift_offset(offset: usize, delta: isize) -> (r: Option<usize>)
    ensures
        r == shifted(offset as int, delta as int),
{
    offset.checked_add_signed(delta)
}


/// The diagnostic of a token spans the token's byte range.
proof fn lemma_error_diag_span(file: SourceFile, t: LexTok)
    requires
        0 <= t.start <= t.end <= file@.text.len(),
        byte_len(file@.text) <= usize::MAX,
    ensures
        error_diagnostic(file, t).span matches Some(sp) && sp.range == token_of(
            file@.text,
            t,
        ).range,
        token_of(file@.text, t).range.start == byte_offset(file@.text, t.start),
        token_of(file@.text, t).range.end == byte_offset(file@.text, t.end),
{
    let s = file@.text;
    lemma_byte_offset_mono(s, t.start, t.end);
    lemma_byte_offset_mono(s, t.end, s.len() as int);
    lemma_byte_offset_full(s);
    let r = token_of(s, t).range;
    assert(is_boundary(s, r.start as int));
    assert(is_boundary(s, r.end as int));
}

/// Old diagnostics of tokens that start before byte `from` are dropped by the shift.
proof fn lemma_diags_dropped_before(
    file: SourceFile,
    toks: Seq<LexTok>,
    from: int,
    delta: int,
    target: SourceFile,
)
    requires
        byte_len(file@.text) <= usize::MAX,
        forall|x: int|
            0 <= x < toks.len() ==> 0 <= (#[trigger] toks[x]).start <= toks[x].end
                <= file@.text.len() && byte_offset(file@.text, toks[x].start) < from,
    ensures
        diags_of(file, toks).filter_map(shift_after(from, delta, target))
            == Seq::<DiagnosticView>::empty(),
    decreases toks.len(),
{
    if toks.len() > 0 {
        let t = toks.last();
        assert forall|x: int| 0 <= x < toks.drop_last().len() implies 0 <= (
        #[trigger] toks.drop_last()[x]).start <= toks.drop_last()[x].end <= file@.text.len()
            && byte_offset(file@.text, toks.drop_last()[x].start) < from by {
            assert(toks.drop_last()[x] == toks[x]);
        }
        lemma_diags_dropped_before(file, toks.drop_last(), from, delta, target);
        let tail = if t.kind == TokenKind::Error {
            seq![error_diagnostic(file, t)]
        } else {
            Seq::<DiagnosticView>::empty()
        };
        assert(diags_of(file, toks) == diags_of(file, toks.drop_last()) + tail);
        lemma_filter_map_concat(diags_of(file, toks.drop_last()), tail, shift_after(from, delta, target));
        if t.kind == TokenKind::Error {
            lemma_error_diag_span(file, t);
            Seq::<DiagnosticView>::lemma_filter_map_singleton(
                error_diagnostic(file, t),
                shift_after(from, delta, target),
            );
        } else {
            assert(tail.filter_map(shift_after(from, delta, target)) =~= Seq::<DiagnosticView>::empty());
        }
        assert(diags_of(file, toks).filter_map(shift_after(from, delta, target)) =~= Seq::<
            DiagnosticView,
        >::empty());
    }
}

/// Old diagnostics of tokens in the unchanged suffix, shifted and resolved against the edited
/// source, are the diagnostics of the same tokens lexed in the edited text.
#[verifier::spinoff_prover]
#[verifier::rlimit(40)]
proof fn lemma_diags_shifted(
    old_file: SourceFile,
    new_file: SourceFile,
    q: int,
    i: int,
    toks: Seq<LexTok>,
    from: int,
    delta: int,
)
    requires
        0 <= q <= old_file@.text.len(),
        0 <= i <= new_file@.text.len(),
        old_file@.text.skip(q) == new_file@.text.skip(i),
        byte_len(old_file@.text) <= usize::MAX,
        byte_len(new_file@.text) <= usize::MAX,
        delta == byte_offset(new_file@.text, i) - byte_offset(old_file@.text, q),
        from <= byte_offset(old_file@.text, q),
        forall|x: int|
            0 <= x < toks.len() ==> q <= (#[trigger] toks[x]).start <= toks[x].end
                <= old_file@.text.len(),
    ensures
        diags_of(old_file, toks).filter_map(shift_after(from, delta, new_file)) == diags_of(
            new_file,
            toks.map_values(|t: LexTok| moved(t, i - q)),
        ),
    decreases toks.len(),
{
    let ot = old_file@.text;
    let nt = new_file@.text;
    let c = i - q;
    let f = shift_after(from, delta, new_file);
    let mv = |t: LexTok| moved(t, c);
    if toks.len() == 0 {
        assert(toks.map_values(mv) =~= Seq::<LexTok>::empty());
    } else {
        let t = toks.last();
        assert forall|x: int| 0 <= x < toks.drop_last().len() implies q <= (
        #[trigger] toks.drop_last()[x]).start <= toks.drop_last()[x].end <= ot.len() by {
            assert(toks.drop_last()[x] == toks[x]);
        }
        lemma_diags_shifted(old_file, new_file, q, i, toks.drop_last(), from, delta);
        assert(toks.map_values(mv).drop_last() =~= toks.drop_last().map_values(mv));
        assert(toks.map_values(mv).last() == moved(t, c));
        let tail = if t.kind == TokenKind::Error {
            seq![error_diagnostic(old_file, t)]
        } else {
            Seq::<DiagnosticView>::empty()
        };
        lemma_filter_map_concat(diags_of(old_file, toks.drop_last()), tail, f);
        if t.kind == TokenKind::Error {
            let nt_tok = moved(t, c);
            lemma_error_diag_span(old_file, t);
            assert(0 <= nt_tok.start <= nt_tok.end <= nt.len()) by {
                assert(ot.len() - q == nt.len() - i) by {
                    assert(ot.skip(q).len() == nt.skip(i).len());
                }
            }
            lemma_error_diag_span(new_file, nt_tok);
            lemma_byte_offset_from(ot, q, t.start - q);
            lemma_byte_offset_from(nt, i, t.start - q);
            lemma_byte_offset_from(ot, q, t.end - q);
            lemma_byte_offset_from(nt, i, t.end - q);
            lemma_byte_offset_mono(ot, q, t.start);
            assert(nt.skip(nt_tok.start) =~= ot.skip(t.start)) by {
                assert(nt.skip(nt_tok.start) =~= nt.skip(i).skip(t.start - q));
                assert(ot.skip(t.start) =~= ot.skip(q).skip(t.start - q));
            }
            Seq::<DiagnosticView>::lemma_filter_map_singleton(error_diagnostic(old_file, t), f);
            assert(f(error_diagnostic(old_file, t)) == Some(error_diagnostic(new_file, nt_tok)));
        } else {
            assert(tail.filter_map(f) =~= Seq::<DiagnosticView>::empty());
        }
    }
}


/// Past the edited range, the edited text is the old text, moved by the change in length.
proof fn lemma_edited_suffix(text: Seq<char>, range: TextRange, repl: Seq<char>, q: int)
    requires
        range.start <= range.end,
        is_boundary(text, range.start as int),
        is_boundary(text, range.end as int),
        char_of(text, range.end as int) <= q <= text.len(),
    ensures
        ({
            let nt = edited_text(text, range, repl);
            let p = q - char_of(text, range.end as int) + char_of(text, range.start as int)
                + repl.len();
            &&& 0 <= p <= nt.len()
            &&& nt.skip(p) == text.skip(q)
            &&& byte_offset(nt, p) == byte_offset(text, q) + byte_len(repl) - (range.end
                - range.start)
        }),
{
    let ks = char_of(text, range.start as int);
    let ke = char_of(text, range.end as int);
    assert(0 <= ks <= text.len() && byte_offset(text, ks) == range.start);
    assert(0 <= ke <= text.len() && byte_offset(text, ke) == range.end);
    if ke < ks {
        lemma_byte_offset_strict(text, ke, ks);
    }
    let nt = edited_text(text, range, repl);
    let p = q - ke + ks + repl.len();
    assert(nt == text.take(ks) + repl + text.skip(ke));
    assert(nt.skip(p) =~= text.skip(q));
    assert(nt.take(p) =~= (text.take(ks) + repl) + text.skip(ke).take(q - ke));
    lemma_byte_len_concat(text.take(ks), repl);
    lemma_byte_len_concat(text.take(ks) + repl, text.skip(ke).take(q - ke));
    lemma_byte_offset_from(text, ke, q - ke);
}

/// Token starts of a full pass grow strictly.
proof fn lemma_lexed_starts(s: Seq<char>, a: int, c: int)
    requires
        byte_len(s) <= usize::MAX,
        0 <= a < c < lexed_tokens(s).len(),
    ensures
        lexed_tokens(s)[a].range.start < lexed_tokens(s)[c].range.start,
        lexed_tokens(s)[a].range.start == byte_offset(s, lex_tail(s, 0)[a].start),
        lex_tail(s, 0)[a].start < lex_tail(s, 0)[c].start,
{
    crate::lex_laws::lemma_lex_tail_ordered(s, 0, a, c);
    crate::lexer::lemma_lex_from_bounds(s, 0);
    let ta = lex_tail(s, 0)[a];
    let tc = lex_tail(s, 0)[c];
    assert(0 <= ta.start);
    assert(tc.start <= s.len()) by {
        if c < lex_from(s, 0).len() {
            assert(tc == lex_from(s, 0)[c]);
        }
    }
    lemma_byte_offset_strict(s, ta.start, tc.start);
    lemma_byte_offset_mono(s, tc.start, s.len() as int);
    lemma_byte_offset_full(s);
}

/// Where `first_start_at_least` stops, for tokens whose starts grow.
proof fn lemma_first_start(toks: Seq<TokenView>, b: int, i: int)
    requires
        0 <= i <= toks.len(),
        forall|x: int, y: int|
            0 <= x < y < toks.len() ==> (#[trigger] toks[x]).range.start < (
            #[trigger] toks[y]).range.start,
    ensures
        i <= first_start_at_least(toks, b, i) <= toks.len(),
        forall|x: int|
            i <= x < first_start_at_least(toks, b, i) ==> (#[trigger] toks[x]).range.start < b,
        forall|x: int|
            first_start_at_least(toks, b, i) <= x < toks.len() ==> (#[trigger] toks[x]).range.start
                >= b,
    decreases toks.len() - i,
{
    if i < toks.len() && toks[i].range.start < b {
        lemma_first_start(toks, b, i + 1);
    }
}

/// The first relexed token that lines up with an old one is not an error token.
pub open spec fn first_sync_not_error(
    views: Seq<TokenView>,
    old: Seq<TokenView>,
    from: int,
    delta: int,
) -> bool
    decreases views.len(),
{
    if views.len() == 0 {
        true
    } else if exists|j: int| from <= j < old.len() && token_matches(views[0], #[trigger] old[j], delta) {
        views[0].kind != TokenKind::Error
    } else {
        first_sync_not_error(views.drop_first(), old, from, delta)
    }
}

proof fn lemma_first_sync(
    patch: Seq<TokenView>,
    rest: Seq<TokenView>,
    old: Seq<TokenView>,
    from: int,
    delta: int,
    m: int,
)
    requires
        rest.len() > 0,
        from <= m < old.len(),
        token_matches(rest[0], old[m], delta),
        forall|t: int, j: int|
            0 <= t < patch.len() && from <= j < old.len() ==> !token_matches(
                #[trigger] patch[t],
                #[trigger] old[j],
                delta,
            ),
        first_sync_not_error(patch + rest, old, from, delta),
    ensures
        rest[0].kind != TokenKind::Error,
    decreases patch.len(),
{
    let views = patch + rest;
    if patch.len() == 0 {
        assert(views =~= rest);
        assert(from <= m < old.len() && token_matches(views[0], old[m], delta));
    } else {
        assert(views[0] == patch[0]);
        assert(!(exists|j: int| from <= j < old.len() && token_matches(views[0], #[trigger] old[j], delta)));
        assert(views.drop_first() =~= patch.drop_first() + rest);
        assert forall|t: int, j: int|
            0 <= t < patch.drop_first().len() && from <= j < old.len() implies !token_matches(
                #[trigger] patch.drop_first()[t],
                #[trigger] old[j],
                delta,
            ) by {
            assert(patch.drop_first()[t] == patch[t + 1]);
        }
        lemma_first_sync(patch.drop_first(), rest, old, from, delta, m);
    }
}

/// The old token a relexed token lines up with, past the edit, starts at the character that the
/// relexed one moved from, so the two texts agree from there on.
#[verifier::spinoff_prover]
proof fn lemma_sync_position(
    old_file: SourceFile,
    new_file: SourceFile,
    edit: HighlightEdit,
    m: int,
    i: int,
)
    requires
        old_file.is_valid_range_spec(edit.range),
        new_file@.text == edited_text(old_file@.text, edit.range, edit.replacement@),
        byte_len(old_file@.text) <= isize::MAX,
        byte_len(new_file@.text) <= isize::MAX,
        first_start_at_least(lexed_tokens(old_file@.text), edit.range.end as int, 0) <= m
            < lexed_tokens(old_file@.text).len(),
        0 <= i <= new_file@.text.len(),
        token_matches(
            tail_views(new_file@.text, i)[0],
            lexed_tokens(old_file@.text)[m],
            edit_delta(edit),
        ),
    ensures
        ({
            let ot = old_file@.text;
            let nt = new_file@.text;
            let q = lex_tail(ot, 0)[m].start;
            &&& 0 <= q <= ot.len()
            &&& nt.skip(i) == ot.skip(q)
            &&& byte_offset(nt, i) == byte_offset(ot, q) + edit_delta(edit)
            &&& lexed_tokens(ot)[m].range.start == byte_offset(ot, q)
            &&& lexed_tokens(ot).skip(m) == tail_views(ot, q)
            &&& lex_tail(ot, 0).skip(m) == lex_tail(ot, q)
            &&& lex_tail(nt, i)[0].start == i
            &&& tail_views(nt, i)[0] == token_of(nt, lex_tail(nt, i)[0])
        }),
{
    let ot = old_file@.text;
    let nt = new_file@.text;
    let old = lexed_tokens(ot);
    let lt = lex_tail(ot, 0);
    let delta = edit_delta(edit);
    assert(old.len() == lt.len());
    assert forall|x: int, y: int| 0 <= x < y < old.len() implies (#[trigger] old[x]).range.start < (
    #[trigger] old[y]).range.start by {
        lemma_lexed_starts(ot, x, y);
    }
    lemma_first_start(old, edit.range.end as int, 0);
    crate::lex_laws::lemma_lex_tail_split(ot, 0, m);
    let q = lt[m].start;
    assert(old.skip(m) =~= tail_views(ot, q));
    assert(old[m] == token_of(ot, lt[m]));
    lemma_byte_offset_mono(ot, q, ot.len() as int);
    lemma_byte_offset_full(ot);
    assert(old[m].range.start == byte_offset(ot, q));
    let ke = char_of(ot, edit.range.end as int);
    assert(byte_offset(ot, ke) == edit.range.end);
    if q < ke {
        lemma_byte_offset_strict(ot, q, ke);
    }
    lemma_edited_suffix(ot, edit.range, edit.replacement@, q);
    let p = q - ke + char_of(ot, edit.range.start as int) + edit.replacement@.len();
    let ti = lex_tail(nt, i)[0];
    assert(ti.start == i) by {
        if i < nt.len() {
            crate::lexer::lemma_lex_from_step(nt, i);
        } else {
            assert(lex_from(nt, i) =~= Seq::<LexTok>::empty());
        }
    }
    lemma_byte_offset_mono(nt, i, nt.len() as int);
    lemma_byte_offset_full(nt);
    assert(tail_views(nt, i)[0] == token_of(nt, ti));
    assert(byte_offset(nt, i) == byte_offset(ot, q) + delta);
    crate::text::lemma_byte_offset_injective(nt, i, p);
}

/// The shifted old tokens from a lined-up token on are the tokens relexed from there.
#[verifier::spinoff_prover]
proof fn lemma_shifted_tail(ot: Seq<char>, q: int, nt: Seq<char>, i: int, delta: int)
    requires
        0 <= q <= ot.len(),
        0 <= i <= nt.len(),
        nt.skip(i) == ot.skip(q),
        byte_len(ot) <= usize::MAX,
        byte_len(nt) <= usize::MAX,
        byte_offset(nt, i) == byte_offset(ot, q) + delta,
    ensures
        tail_views(ot, q).filter_map(shift_tokens_by(delta)) == tail_views(nt, i),
{
    crate::lex_laws::lemma_tail_views_shift(nt, i, ot, q);
    assert forall|x: int| 0 <= x < tail_views(ot, q).len() implies shift_tokens_by(delta)(
        #[trigger] tail_views(ot, q)[x],
    ) == Some(tail_views(nt, i)[x]) by {
        let a = tail_views(nt, i)[x];
        let bb = tail_views(ot, q)[x];
        assert(a.range.start + byte_offset(ot, q) == bb.range.start + byte_offset(nt, i));
        assert(a.range.end + byte_offset(ot, q) == bb.range.end + byte_offset(nt, i));
    }
    crate::lex_laws::lemma_filter_map_all_some(
        tail_views(ot, q),
        shift_tokens_by(delta),
        tail_views(nt, i),
    );
}

/// The shifted old diagnostics are those of the tokens relexed after the lined-up token, when
/// that token is no error token.
#[verifier::spinoff_prover]
#[verifier::rlimit(40)]
proof fn lemma_shifted_diags_tail(
    old_file: SourceFile,
    new_file: SourceFile,
    m: int,
    q: int,
    i: int,
    delta: int,
)
    requires
        0 <= m < lexed_tokens(old_file@.text).len(),
        q == lex_tail(old_file@.text, 0)[m].start,
        0 <= q <= old_file@.text.len(),
        lex_tail(old_file@.text, 0).skip(m) == lex_tail(old_file@.text, q),
        0 <= i <= new_file@.text.len(),
        new_file@.text.skip(i) == old_file@.text.skip(q),
        byte_len(old_file@.text) <= usize::MAX,
        byte_len(new_file@.text) <= usize::MAX,
        byte_offset(new_file@.text, i) == byte_offset(old_file@.text, q) + delta,
        lex_tail(new_file@.text, i)[0].kind != TokenKind::Error,
    ensures
        lexed_diagnostics(old_file).filter_map(
            shift_after(byte_offset(old_file@.text, q) as int, delta, new_file),
        ) == diags_of(new_file, lex_tail(new_file@.text, i).drop_first()),
{
    let ot = old_file@.text;
    let nt = new_file@.text;
    let lt = lex_tail(ot, 0);
    let s_from = byte_offset(ot, q) as int;
    let f = shift_after(s_from, delta, new_file);
    crate::lex_laws::lemma_diags_of_tail(old_file, ot, 0);
    assert(lt =~= lt.take(m) + lex_tail(ot, q));
    crate::lexer::lemma_diags_of_concat(old_file, lt.take(m), lex_tail(ot, q));
    crate::lexer::lemma_lex_from_bounds(ot, 0);
    assert forall|x: int| 0 <= x < lt.take(m).len() implies 0 <= (#[trigger] lt.take(m)[x]).start
        <= lt.take(m)[x].end <= ot.len() && byte_offset(ot, lt.take(m)[x].start) < s_from by {
        assert(lt.take(m)[x] == lt[x]);
        crate::lex_laws::lemma_lex_tail_ordered(ot, 0, x, m);
        assert(lt[x].end <= ot.len()) by {
            assert(lt[x] == lex_from(ot, 0)[x]);
        }
        lemma_byte_offset_strict(ot, lt[x].start, q);
    }
    lemma_diags_dropped_before(old_file, lt.take(m), s_from, delta, new_file);
    crate::lexer::lemma_lex_from_bounds(ot, q);
    assert forall|x: int| 0 <= x < lex_tail(ot, q).len() implies q <= (
    #[trigger] lex_tail(ot, q)[x]).start <= lex_tail(ot, q)[x].end <= ot.len() by {
        if x < lex_from(ot, q).len() {
            assert(lex_tail(ot, q)[x] == lex_from(ot, q)[x]);
        }
    }
    lemma_diags_shifted(old_file, new_file, q, i, lex_tail(ot, q), s_from, delta);
    crate::lex_laws::lemma_lex_from_shift(nt, i, ot, q);
    assert(ot.len() - q == nt.len() - i) by {
        assert(ot.skip(q).len() == nt.skip(i).len());
    }
    assert(lex_tail(ot, q).map_values(|t: LexTok| moved(t, i - q)) =~= lex_tail(nt, i));
    lemma_filter_map_concat(diags_of(old_file, lt.take(m)), diags_of(old_file, lex_tail(ot, q)), f);
    let ti = lex_tail(nt, i)[0];
    assert(lex_tail(nt, i) =~= seq![ti] + lex_tail(nt, i).drop_first());
    crate::lexer::lemma_diags_of_concat(new_file, seq![ti], lex_tail(nt, i).drop_first());
    reveal_with_fuel(crate::lexer::diags_of, 2);
    assert(diags_of(new_file, seq![ti]) =~= Seq::<DiagnosticView>::empty());
    assert(diags_of(new_file, lex_tail(nt, i)) =~= diags_of(new_file, lex_tail(nt, i).drop_first()));
}

/// The cache an update patches together (the kept tokens and diagnostics, the relexed ones, and
/// the shifted old ones) is what a full pass over the edited text gives, when
/// [`relex_keeps_prefix`] holds.
#[verifier::spinoff_prover]
#[verifier::rlimit(40)]
proof fn lemma_patch_in_sync(
    old_file: SourceFile,
    new_file: SourceFile,
    edit: HighlightEdit,
    sync: IncrementalSync,
)
    requires
        old_file.is_valid_range_spec(edit.range),
        new_file@.text == edited_text(old_file@.text, edit.range, edit.replacement@),
        new_file@.id == old_file@.id,
        new_file@.name == old_file@.name,
        byte_len(old_file@.text) <= isize::MAX,
        byte_len(new_file@.text) <= isize::MAX,
        relexed_until_sync(
            new_file,
            sync,
            lexed_tokens(old_file@.text),
            first_start_at_least(lexed_tokens(old_file@.text), edit.range.end as int, 0),
            edit_delta(edit),
        ),
        byte_offset(new_file@.text, sync.start_char@) == relex_start(
            lexed_tokens(old_file@.text),
            edit.range,
        ),
        sync.old_suffix_index <= lexed_tokens(old_file@.text).len(),
        relex_keeps_prefix(old_file, edit),
    ensures
        ({
            let old = lexed_tokens(old_file@.text);
            let b = relex_start(old, edit.range);
            old.take(first_start_at_least(old, b, 0)) + token_views(sync.patch_tokens@) + old.skip(
                sync.old_suffix_index as int,
            ).filter_map(shift_tokens_by(edit_delta(edit))) == lexed_tokens(new_file@.text)
        }),
        ({
            let old = lexed_tokens(old_file@.text);
            let b = relex_start(old, edit.range);
            lexed_diagnostics(old_file).filter_map(keep_before(b)) + diagnostic_views(
                sync.patch_diagnostics@,
            ) + lexed_diagnostics(old_file).filter_map(
                shift_after(sync.old_suffix_start as int, edit_delta(edit), new_file),
            ) == lexed_diagnostics(new_file)
        }),
{
    let ot = old_file@.text;
    let nt = new_file@.text;
    let old = lexed_tokens(ot);
    let b = relex_start(old, edit.range);
    let j = first_start_at_least(old, b, 0);
    let from = first_start_at_least(old, edit.range.end as int, 0);
    let delta = edit_delta(edit);
    let k0 = sync.start_char@;
    let m = sync.old_suffix_index as int;
    let g = with_text(old_file, nt);
    let kept = lexed_diagnostics(old_file).filter_map(keep_before(b));
    let patch_d = diagnostic_views(sync.patch_diagnostics@);
    assert(new_file@ == SourceView { id: old_file@.id, name: old_file@.name, text: nt });
    assert(g@ == new_file@);
    crate::lex_laws::lemma_diags_of_view(g, new_file, lex_tail(nt, k0));
    crate::lex_laws::lemma_diags_of_view(g, new_file, lex_from(nt, 0));
    crate::diagnostic::lemma_char_index_of(nt, k0);
    assert(char_of(nt, b) == k0);
    crate::lex_laws::lemma_diags_of_tail(new_file, nt, k0);
    if m == old.len() {
        assert(old.skip(m).filter_map(shift_tokens_by(delta)) =~= Seq::<TokenView>::empty()) by {
            assert(old.skip(m) =~= Seq::<TokenView>::empty());
        }
        assert(old.take(j) + token_views(sync.patch_tokens@) + old.skip(m).filter_map(
            shift_tokens_by(delta),
        ) =~= old.take(j) + tail_views(nt, k0));
        crate::lexer::lemma_lex_from_bounds(ot, 0);
        lemma_byte_offset_full(ot);
        assert forall|x: int| 0 <= x < lex_from(ot, 0).len() implies 0 <= (
        #[trigger] lex_from(ot, 0)[x]).start <= lex_from(ot, 0)[x].end <= ot.len()
            && byte_offset(ot, lex_from(ot, 0)[x].start) < usize::MAX by {
            lemma_byte_offset_mono(ot, lex_from(ot, 0)[x].start, ot.len() as int);
        }
        lemma_diags_dropped_before(old_file, lex_from(ot, 0), usize::MAX as int, delta, new_file);
        assert(kept + patch_d + lexed_diagnostics(old_file).filter_map(
            shift_after(sync.old_suffix_start as int, delta, new_file),
        ) =~= kept + patch_d);
    } else {
        let i = sync.sync_char@;
        lemma_sync_position(old_file, new_file, edit, m, i);
        let q = lex_tail(ot, 0)[m].start;
        lemma_shifted_tail(ot, q, nt, i, delta);
        assert(old.take(j) + token_views(sync.patch_tokens@) + old.skip(m).filter_map(
            shift_tokens_by(delta),
        ) =~= old.take(j) + tail_views(nt, k0));
        lemma_first_sync(token_views(sync.patch_tokens@), tail_views(nt, i), old, from, delta, m);
        lemma_shifted_diags_tail(old_file, new_file, m, q, i, delta);
        assert(sync.old_suffix_start as int == byte_offset(ot, q) as int);
        assert(kept + patch_d + lexed_diagnostics(old_file).filter_map(
            shift_after(sync.old_suffix_start as int, delta, new_file),
        ) =~= kept + diags_of(new_file, lex_tail(nt, k0)));
    }
}

} // verus!
