//! Compiler diagnostics with stable codes, spans and Chinese rendering.
use vstd::prelude::*;
use vstd::string::*;

use crate::source::{SourceFile, SourceId, TextPosition, TextRange};
use crate::text::{
    byte_offset, decimal, decimal_string, is_boundary, lemma_byte_offset_injective, line_col,
    line_start_chars, line_starts, lemma_line_starts_len, owned, push_decimal, push_repeat,
    repeat, string_views, trim_line_end,
};

verus! {

/// `MD` followed by four ASCII digits.
pub open spec fn is_valid_code(s: Seq<char>) -> bool {
    &&& s.len() == 6
    &&& s[0] == 'M'
    &&& s[1] == 'D'
    &&& forall|i: int| 2 <= i < 6 ==> '0' <= #[trigger] s[i] <= '9'
}

/// Stable Maodie diagnostic code, such as `MD0001`.
#[derive(Debug, PartialEq, Eq, Hash)]
pub struct DiagnosticCode(String);

impl View for DiagnosticCode {
    type V = Seq<char>;

    closed spec fn view(&self) -> Seq<char> {
        self.0@
    }
}

impl DiagnosticCode {
    #[verifier::type_invariant]
    closed spec fn inv(&self) -> bool {
        is_valid_code(self.0@)
    }

    /// Creates a diagnostic code after validating the `MD0001` naming rule.
    ///
    /// Returns [`DiagnosticCodeError`] when the value is not `MD` followed by four digits.
    pub fn new(value: &str) -> (r: Result<Self, DiagnosticCodeError>)
        ensures
            r is Ok <==> is_valid_code(value@),
            r matches Ok(code) ==> code@ == value@,
            r matches Err(e) ==> e@ == value@,
    {
        if check_code(value) {
            Ok(DiagnosticCode(value.to_owned()))
        } else {
            Err(DiagnosticCodeError { value: value.to_owned() })
        }
    }

    /// Returns the stable string form.
    pub fn as_str(&self) -> (r: &str)
        ensures
            r@ == self@,
            is_valid_code(r@),
    {
        proof {
            use_type_invariant(self);
        }
        self.0.as_str()
    }

}

impl Clone for DiagnosticCode {
    fn clone(&self) -> (r: Self)
        ensures
            r@ == self@,
    {
        proof {
            use_type_invariant(self);
        }
        DiagnosticCode(self.0.clone())
    }
}

fn check_code(value: &str) -> (r: bool)
    ensures
        r == is_valid_code(value@),
{
    if value.unicode_len() != 6 {
        return false;
    }
    if value.get_char(0) != 'M' || value.get_char(1) != 'D' {
        return false;
    }
    let mut i: usize = 2;
    while i < 6
        invariant
            value@.len() == 6,
            2 <= i <= 6,
            forall|j: int| 2 <= j < i ==> '0' <= #[trigger] value@[j] <= '9',
        decreases 6 - i,
    {
        let c = value.get_char(i);
        if !('0' <= c && c <= '9') {
            return false;
        }
        i = i + 1;
    }
    true
}

/// Error returned for invalid Maodie diagnostic codes.
#[derive(Clone, Debug, PartialEq, Eq)]
pub struct DiagnosticCodeError {
    value: String,
}

impl View for DiagnosticCodeError {
    type V = Seq<char>;

    closed spec fn view(&self) -> Seq<char> {
        self.value@
    }
}

impl DiagnosticCodeError {
    /// Returns the rejected code value.
    pub fn value(&self) -> (r: &str)
        ensures
            r@ == self@,
    {
        self.value.as_str()
    }
}

/// Diagnostic severity used by CLI, IDE, and JSON consumers.
#[derive(Clone, Copy, Debug, PartialEq, Eq, Structural)]
pub enum DiagnosticSeverity {
    /// Compilation error.
    Error,
    /// Warning that does not stop compilation.
    Warning,
    /// Informational compiler note.
    Info,
}

pub open spec fn severity_str(s: DiagnosticSeverity) -> Seq<char> {
    match s {
        DiagnosticSeverity::Error => "error"@,
        DiagnosticSeverity::Warning => "warning"@,
        DiagnosticSeverity::Info => "info"@,
    }
}

pub open spec fn severity_zh(s: DiagnosticSeverity) -> Seq<char> {
    match s {
        DiagnosticSeverity::Error => "错误"@,
        DiagnosticSeverity::Warning => "警告"@,
        DiagnosticSeverity::Info => "信息"@,
    }
}

impl DiagnosticSeverity {
    /// Returns the stable machine-readable severity string.
    pub fn as_str(self) -> (r: &'static str)
        ensures
            r@ == severity_str(self),
    {
        match self {
            DiagnosticSeverity::Error => "error",
            DiagnosticSeverity::Warning => "warning",
            DiagnosticSeverity::Info => "info",
        }
    }

    /// Returns the Chinese label used in CLI diagnostics.
    pub fn zh_label(self) -> (r: &'static str)
        ensures
            r@ == severity_zh(self),
    {
        match self {
            DiagnosticSeverity::Error => "错误",
            DiagnosticSeverity::Warning => "警告",
            DiagnosticSeverity::Info => "信息",
        }
    }
}

/// Fully resolved source span for diagnostics.
#[derive(Clone, Debug, PartialEq, Eq)]
pub struct DiagnosticSpan {
    /// Source file id.
    pub source_id: SourceId,
    /// Source display name or path.
    pub file_name: String,
    /// Half-open byte range.
    pub range: TextRange,
    /// Human-readable start position.
    pub start: TextPosition,
    /// Human-readable end position.
    pub end: TextPosition,
}

/// Abstract content of a diagnostic span.
pub struct SpanView {
    pub source_id: SourceId,
    pub file_name: Seq<char>,
    pub range: TextRange,
    pub start: TextPosition,
    pub end: TextPosition,
}

impl View for DiagnosticSpan {
    type V = SpanView;

    open spec fn view(&self) -> SpanView {
        SpanView {
            source_id: self.source_id,
            file_name: self.file_name@,
            range: self.range,
            start: self.start,
            end: self.end,
        }
    }
}

/// The position a source file assigns to character index `k`.
pub open spec fn position_of(text: Seq<char>, k: int, offset: usize) -> TextPosition {
    TextPosition {
        line: line_col(text, k).0 as usize,
        column: line_col(text, k).1 as usize,
        byte_offset: offset,
    }
}

/// The character index that starts at byte `b` (meaningful when `b` is a boundary).
pub open spec fn char_index_of(text: Seq<char>, b: int) -> int {
    choose|k: int| 0 <= k <= text.len() && byte_offset(text, k) == b
}

/// The span a source file resolves for a range, when the range is valid.
pub open spec fn resolved_span(file: SourceFile, range: TextRange) -> Option<SpanView> {
    let text = file@.text;
    if range.start <= range.end && is_boundary(text, range.start as int) && is_boundary(
        text,
        range.end as int,
    ) {
        Some(
            SpanView {
                source_id: file@.id,
                file_name: file@.name,
                range: range,
                start: position_of(text, char_index_of(text, range.start as int), range.start),
                end: position_of(text, char_index_of(text, range.end as int), range.end),
            },
        )
    } else {
        None
    }
}

pub proof fn lemma_char_index_of(text: Seq<char>, k: int)
    requires
        0 <= k <= text.len(),
    ensures
        char_index_of(text, byte_offset(text, k) as int) == k,
{
    let b = byte_offset(text, k) as int;
    assert(exists|j: int| 0 <= j <= text.len() && byte_offset(text, j) == b);
    let j = char_index_of(text, b);
    lemma_byte_offset_injective(text, j, k);
}

impl DiagnosticSpan {
    /// Resolves a byte range against a source file.
    pub fn from_source(file: &SourceFile, range: TextRange) -> (r: Option<Self>)
        ensures
            r matches Some(span) ==> resolved_span(*file, range) == Some(span@),
            r is None ==> resolved_span(*file, range) is None,
    {
        if !file.is_valid_range(range) {
            return None;
        }
        let start = file.position_at(range.start);
        let end = file.position_at(range.end);
        match (start, end) {
            (Some(start), Some(end)) => {
                let r = DiagnosticSpan {
                    source_id: file.id(),
                    file_name: owned(file.name()),
                    range,
                    start,
                    end,
                };
                proof {
                    let text = file@.text;
                    let ks = char_index_of(text, range.start as int);
                    let ke = char_index_of(text, range.end as int);
                    assert(0 <= ks <= text.len() && byte_offset(text, ks) == range.start);
                    assert(0 <= ke <= text.len() && byte_offset(text, ke) == range.end);
                }
                Some(r)
            },
            _ => None,
        }
    }

    /// Copies a span.
    pub fn copy_span(&self) -> (r: Self)
        ensures
            r@ == self@,
    {
        DiagnosticSpan {
            source_id: self.source_id,
            file_name: self.file_name.clone(),
            range: self.range,
            start: self.start,
            end: self.end,
        }
    }
}

/// Compiler diagnostic with stable fields for JSON consumers.
#[derive(Clone, Debug, PartialEq, Eq)]
pub struct Diagnostic {
    /// Stable diagnostic code.
    pub code: DiagnosticCode,
    /// Severity level.
    pub severity: DiagnosticSeverity,
    /// Chinese-first diagnostic message.
    pub message: String,
    /// Primary source span, or `None` when the diagnostic is not tied to one source range.
    pub span: Option<DiagnosticSpan>,
    /// Additional Chinese notes.
    pub notes: Vec<String>,
}

/// Abstract content of a diagnostic.
pub struct DiagnosticView {
    pub code: Seq<char>,
    pub severity: DiagnosticSeverity,
    pub message: Seq<char>,
    pub span: Option<SpanView>,
    pub notes: Seq<Seq<char>>,
}

pub open spec fn span_view(span: Option<DiagnosticSpan>) -> Option<SpanView> {
    match span {
        Some(s) => Some(s@),
        None => None,
    }
}

impl View for Diagnostic {
    type V = DiagnosticView;

    open spec fn view(&self) -> DiagnosticView {
        DiagnosticView {
            code: self.code@,
            severity: self.severity,
            message: self.message@,
            span: span_view(self.span),
            notes: string_views(self.notes@),
        }
    }
}

/// Views of a sequence of diagnostics.
pub open spec fn diagnostic_views(v: Seq<Diagnostic>) -> Seq<DiagnosticView> {
    v.map_values(|d: Diagnostic| d@)
}

/// Header line of a rendered diagnostic.
pub open spec fn render_header(d: DiagnosticView) -> Seq<char> {
    severity_zh(d.severity) + "["@ + d.code + "]: "@ + d.message
}

/// Rendered notes, each on its own line.
pub open spec fn render_notes(notes: Seq<Seq<char>>) -> Seq<char>
    decreases notes.len(),
{
    if notes.len() == 0 {
        Seq::empty()
    } else {
        render_notes(notes.drop_last()) + "\n  = 提示: "@ + notes.last()
    }
}

/// Display width of text: one column per ASCII character, two otherwise.
pub open spec fn display_width(s: Seq<char>) -> nat
    decreases s.len(),
{
    if s.len() == 0 {
        0
    } else {
        display_width(s.drop_last()) + if (s.last() as u32) < 0x80 {
            1nat
        } else {
            2nat
        }
    }
}

/// The text between two byte offsets, when both are ordered character boundaries.
pub open spec fn text_get(text: Seq<char>, a: int, b: int) -> Option<Seq<char>> {
    if a <= b && is_boundary(text, a) && is_boundary(text, b) {
        Some(text.subrange(char_index_of(text, a), char_index_of(text, b)))
    } else {
        None
    }
}

/// The text of a 1-based line without its line ending.
pub open spec fn spec_line_text(text: Seq<char>, line: int) -> Option<Seq<char>> {
    let lsc = line_start_chars(text);
    if 1 <= line <= lsc.len() {
        Some(
            trim_line_end(
                text.subrange(
                    lsc[line - 1],
                    if line < lsc.len() {
                        lsc[line]
                    } else {
                        text.len() as int
                    },
                ),
            ),
        )
    } else {
        None
    }
}

pub open spec fn marker_width(text: Seq<char>, span: SpanView) -> nat {
    if span.start.line != span.end.line || span.range.start == span.range.end {
        1
    } else {
        match text_get(text, span.range.start as int, span.range.end as int) {
            Some(t) => if display_width(t) >= 1 {
                display_width(t)
            } else {
                1
            },
            None => 1,
        }
    }
}

pub open spec fn line_start_byte(text: Seq<char>, span: SpanView) -> int {
    let idx = if span.start.line >= 1 {
        span.start.line - 1
    } else {
        0
    };
    if idx < line_starts(text).len() {
        line_starts(text)[idx]
    } else {
        span.range.start as int
    }
}

pub open spec fn marker_offset(text: Seq<char>, span: SpanView) -> nat {
    match text_get(text, line_start_byte(text, span), span.range.start as int) {
        Some(t) => display_width(t),
        None => if span.start.column >= 1 {
            (span.start.column - 1) as nat
        } else {
            0
        },
    }
}

/// The excerpt that shows the spanned line with a caret marker.
pub open spec fn render_excerpt(text: Seq<char>, span: SpanView) -> Seq<char> {
    match spec_line_text(text, span.start.line as int) {
        None => Seq::empty(),
        Some(line_text) => "\n   |"@ + "\n "@ + decimal(span.start.line as nat) + " | "@ + line_text
            + "\n   | "@ + repeat(" "@, marker_offset(text, span)) + repeat(
            "^"@,
            marker_width(text, span),
        ),
    }
}

/// The full CLI rendering of a diagnostic, given the source file if any.
pub open spec fn render_chinese_spec(d: DiagnosticView, source: Option<SourceFile>) -> Seq<char> {
    render_header(d) + match d.span {
        None => Seq::empty(),
        Some(span) => "\n  --> "@ + span.file_name + ":"@ + decimal(span.start.line as nat) + ":"@
            + decimal(span.start.column as nat) + match source {
            Some(file) => if file@.id == span.source_id {
                render_excerpt(file@.text, span)
            } else {
                Seq::empty()
            },
            None => Seq::empty(),
        },
    } + render_notes(d.notes)
}

impl Diagnostic {
    /// Creates a diagnostic without a source span.
    pub fn new(code: DiagnosticCode, severity: DiagnosticSeverity, message: &str) -> (r: Self)
        ensures
            r@.code == code@,
            r@.severity == severity,
            r@.message == message@,
            r@.span is None,
            r@.notes == Seq::<Seq<char>>::empty(),
    {
        let r = Diagnostic {
            code,
            severity,
            message: message.to_owned(),
            span: None,
            notes: Vec::new(),
        };
        proof {
            assert(r@.notes =~= Seq::<Seq<char>>::empty());
        }
        r
    }

    /// Adds a resolved source span.
    pub fn with_span(self, span: DiagnosticSpan) -> (r: Self)
        ensures
            r@.code == self@.code,
            r@.severity == self@.severity,
            r@.message == self@.message,
            r@.span == Some(span@),
            r@.notes == self@.notes,
    {
        let mut d = self;
        d.span = Some(span);
        d
    }

    /// Adds one explanatory note.
    pub fn with_note(self, note: &str) -> (r: Self)
        ensures
            r@.code == self@.code,
            r@.severity == self@.severity,
            r@.message == self@.message,
            r@.span == self@.span,
            r@.notes == self@.notes.push(note@),
    {
        let mut d = self;
        let ghost old_notes = d.notes@;
        d.notes.push(note.to_owned());
        proof {
            assert(string_views(d.notes@) =~= string_views(old_notes).push(note@));
        }
        d
    }

    /// Copies a diagnostic.
    pub fn copy_diagnostic(&self) -> (r: Self)
        ensures
            r@ == self@,
    {
        let span = match &self.span {
            Some(s) => Some(s.copy_span()),
            None => None,
        };
        let mut notes: Vec<String> = Vec::new();
        let mut i: usize = 0;
        while i < self.notes.len()
            invariant
                i <= self.notes.len(),
                string_views(notes@) =~= string_views(self.notes@).take(i as int),
            decreases self.notes.len() - i,
        {
            notes.push(self.notes[i].clone());
            i = i + 1;
            proof {
                assert(string_views(self.notes@).take(i as int) =~= string_views(
                    self.notes@,
                ).take(i - 1).push(self.notes@[i - 1]@));
            }
        }
        proof {
            assert(string_views(self.notes@).take(self.notes.len() as int) =~= string_views(
                self.notes@,
            ));
        }
        Diagnostic {
            code: self.code.clone(),
            severity: self.severity,
            message: self.message.clone(),
            span,
            notes,
        }
    }

    /// Renders a CLI-friendly Chinese diagnostic.
    pub fn render_chinese(&self, source: Option<&SourceFile>) -> (r: String)
        ensures
            r@ == render_chinese_spec(
                self@,
                match source {
                    Some(f) => Some(*f),
                    None => None,
                },
            ),
    {
        let mut output = String::new();
        output.append(self.severity.zh_label());
        output.append("[");
        output.append(self.code.as_str());
        output.append("]: ");
        output.append(self.message.as_str());
        proof {
            assert(output@ =~= render_header(self@));
        }
        let ghost after_header = output@;
        if let Some(span) = &self.span {
            output.append("\n  --> ");
            output.append(span.file_name.as_str());
            output.append(":");
            push_decimal(&mut output, span.start.line);
            output.append(":");
            push_decimal(&mut output, span.start.column);
            let ghost before_excerpt = output@;
            match source {
                Some(file) => {
                    if file.id() == span.source_id {
                        render_source_excerpt(&mut output, file, span);
                    } else {
                        proof {
                            assert(output@ =~= before_excerpt + Seq::<char>::empty());
                        }
                    }
                },
                None => {
                    proof {
                        assert(output@ =~= before_excerpt + Seq::<char>::empty());
                    }
                },
            }
            proof {
                assert(output@ =~= after_header + ("\n  --> "@ + span@.file_name + ":"@ + decimal(
                    span.start.line as nat,
                ) + ":"@ + decimal(span.start.column as nat)) + (output@.subrange(
                    before_excerpt.len() as int,
                    output@.len() as int,
                )));
            }
        } else {
            proof {
                assert(output@ =~= after_header + Seq::<char>::empty());
            }
        }
        let ghost before_notes = output@;
        let mut i: usize = 0;
        proof {
            assert(self@.notes.take(0) =~= Seq::<Seq<char>>::empty());
            assert(output@ =~= before_notes + render_notes(self@.notes.take(0)));
        }
        while i < self.notes.len()
            invariant
                i <= self.notes.len(),
                self@.notes.len() == self.notes.len(),
                self@.notes == string_views(self.notes@),
                output@ == before_notes + render_notes(self@.notes.take(i as int)),
            decreases self.notes.len() - i,
        {
            output.append("\n  = 提示: ");
            output.append(self.notes[i].as_str());
            i = i + 1;
            proof {
                let t = self@.notes.take(i as int);
                assert(t.drop_last() =~= self@.notes.take(i - 1));
                assert(t.last() == self.notes@[i - 1]@);
                assert(output@ =~= before_notes + render_notes(t));
            }
        }
        proof {
            assert(self@.notes.take(self.notes.len() as int) =~= self@.notes);
        }
        output
    }
}

fn render_source_excerpt(output: &mut String, source: &SourceFile, span: &DiagnosticSpan)
    ensures
        final(output)@ == old(output)@ + render_excerpt(source@.text, span@),
{
    proof {
        lemma_line_starts_len(source@.text, source@.text.len() as int);
    }
    let line_text = match source.line_text(span.start.line) {
        None => {
            proof {
                assert(old(output)@ =~= old(output)@ + Seq::<char>::empty());
            }
            return ;
        },
        Some(t) => t,
    };
    let width = marker_width_exec(source, span);
    let offset = marker_offset_exec(source, span);
    output.append("\n   |");
    output.append("\n ");
    push_decimal(output, span.start.line);
    output.append(" | ");
    output.append(line_text);
    output.append("\n   | ");
    push_repeat(output, " ", offset);
    push_repeat(output, "^", width);
    proof {
        assert(final(output)@ =~= old(output)@ + render_excerpt(source@.text, span@));
    }
}

/// Text between two byte offsets, when both are ordered character boundaries.
fn text_get_exec(source: &SourceFile, a: usize, b: usize) -> (r: Option<&str>)
    ensures
        r matches Some(t) ==> text_get(source@.text, a as int, b as int) == Some(t@),
        r is None ==> text_get(source@.text, a as int, b as int) is None,
        r matches Some(t) ==> t@.len() <= isize::MAX,
{
    if a > b {
        return None;
    }
    match (source.char_index_at(a), source.char_index_at(b)) {
        (Some(ka), Some(kb)) => {
            proof {
                let text = source@.text;
                lemma_char_index_of(text, ka as int);
                lemma_char_index_of(text, kb as int);
                if ka > kb {
                    crate::text::lemma_byte_offset_strict(text, kb as int, ka as int);
                }
            }
            Some(source.char_slice(ka, kb))
        },
        _ => None,
    }
}

fn display_width_exec(s: &str) -> (r: usize)
    requires
        s@.len() <= usize::MAX / 2,
    ensures
        r == display_width(s@),
{
    let chars = crate::text::collect_chars(s);
    let mut i: usize = 0;
    let mut w: usize = 0;
    while i < chars.len()
        invariant
            chars@ == s@,
            i <= chars.len(),
            chars.len() <= usize::MAX / 2,
            w == display_width(s@.take(i as int)),
            w <= 2 * i,
        decreases chars.len() - i,
    {
        let c = chars[i];
        w = if (c as u32) < 0x80 {
            w + 1
        } else {
            w + 2
        };
        i = i + 1;
        proof {
            assert(s@.take(i as int).drop_last() =~= s@.take(i - 1));
        }
    }
    proof {
        assert(s@.take(chars.len() as int) =~= s@);
    }
    w
}

fn marker_width_exec(source: &SourceFile, span: &DiagnosticSpan) -> (r: usize)
    ensures
        r == marker_width(source@.text, span@),
{
    if span.start.line != span.end.line || span.range.is_empty() {
        return 1;
    }
    match text_get_exec(source, span.range.start, span.range.end) {
        Some(t) => {
            let w = display_width_exec(t);
            if w >= 1 {
                w
            } else {
                1
            }
        },
        None => 1,
    }
}

fn marker_offset_exec(source: &SourceFile, span: &DiagnosticSpan) -> (r: usize)
    ensures
        r == marker_offset(source@.text, span@),
{
    let idx = if span.start.line >= 1 {
        span.start.line - 1
    } else {
        0
    };
    let starts = source.line_start_offsets();
    let line_start = if idx < starts.len() {
        starts[idx]
    } else {
        span.range.start
    };
    proof {
        lemma_line_starts_len(source@.text, source@.text.len() as int);
        if idx < starts@.len() {
            assert(crate::source::usize_seq_to_int(starts@)[idx as int] == starts@[idx as int]);
        }
    }
    match text_get_exec(source, line_start, span.range.start) {
        Some(t) => {
            display_width_exec(t)
        },
        None => {
            if span.start.column >= 1 {
                span.start.column - 1
            } else {
                0
            }
        },
    }
}


// ---------------------------------------------------------------------------
// Source order
// ---------------------------------------------------------------------------

/// The byte where a diagnostic starts; a diagnostic without a span sorts first.
pub open spec fn diag_start(d: DiagnosticView) -> usize {
    match d.span {
        Some(s) => s.range.start,
        None => 0,
    }
}

/// Inserts `d` after every diagnostic that starts no later than it.
pub open spec fn insert_by_start(s: Seq<DiagnosticView>, d: DiagnosticView) -> Seq<DiagnosticView>
    decreases s.len(),
{
    if s.len() == 0 {
        seq![d]
    } else if diag_start(s.last()) <= diag_start(d) {
        s.push(d)
    } else {
        insert_by_start(s.drop_last(), d).push(s.last())
    }
}

/// The stable sort of diagnostics by start byte: diagnostics that start at the same byte keep
/// their order.
pub open spec fn sort_by_start(ds: Seq<DiagnosticView>) -> Seq<DiagnosticView>
    decreases ds.len(),
{
    if ds.len() == 0 {
        Seq::empty()
    } else {
        insert_by_start(sort_by_start(ds.drop_last()), ds.last())
    }
}

/// Diagnostics in source order: their start bytes never decrease.
pub open spec fn in_source_order(ds: Seq<DiagnosticView>) -> bool {
    forall|i: int, j: int| 0 <= i < j < ds.len() ==> diag_start(#[trigger] ds[i]) <= diag_start(#[trigger] ds[j])
}

proof fn lemma_insert_at(s: Seq<DiagnosticView>, d: DiagnosticView, j: int)
    requires
        0 <= j <= s.len(),
        j == 0 || diag_start(s[j - 1]) <= diag_start(d),
        forall|k: int| j <= k < s.len() ==> diag_start(#[trigger] s[k]) > diag_start(d),
    ensures
        insert_by_start(s, d) == s.insert(j, d),
    decreases s.len(),
{
    if s.len() == 0 {
        assert(s.insert(j, d) =~= seq![d]);
    } else if diag_start(s.last()) <= diag_start(d) {
        assert(s.insert(j, d) =~= s.push(d));
    } else {
        lemma_insert_at(s.drop_last(), d, j);
        assert(s.drop_last().insert(j, d).push(s.last()) =~= s.insert(j, d));
    }
}

proof fn lemma_insert_keeps(s: Seq<DiagnosticView>, d: DiagnosticView)
    ensures
        insert_by_start(s, d).len() == s.len() + 1,
        forall|x: DiagnosticView| #[trigger] insert_by_start(s, d).contains(x) <==> (s.contains(x) || x == d),
        in_source_order(s) ==> in_source_order(insert_by_start(s, d)),
    decreases s.len(),
{
    if s.len() == 0 {
        assert(seq![d][0] == d);
        assert forall|x: DiagnosticView| seq![d].contains(x) <==> (s.contains(x) || x == d) by {
            if x == d {
                assert(seq![d][0] == x);
            }
        }
    } else if diag_start(s.last()) <= diag_start(d) {
        assert forall|x: DiagnosticView| s.push(d).contains(x) <==> (s.contains(x) || x == d) by {
            if s.push(d).contains(x) {
                let k = choose|k: int| 0 <= k < s.push(d).len() && s.push(d)[k] == x;
                if k < s.len() {
                    assert(s[k] == x);
                }
            }
            if s.contains(x) {
                let k = choose|k: int| 0 <= k < s.len() && s[k] == x;
                assert(s.push(d)[k] == x);
            }
            if x == d {
                assert(s.push(d)[s.len() as int] == x);
            }
        }
    } else {
        let t = s.drop_last();
        lemma_insert_keeps(t, d);
        let it = insert_by_start(t, d);
        assert forall|x: DiagnosticView| it.push(s.last()).contains(x) <==> (s.contains(x) || x == d) by {
            if it.push(s.last()).contains(x) {
                let k = choose|k: int| 0 <= k < it.push(s.last()).len() && it.push(s.last())[k] == x;
                if k < it.len() {
                    assert(it[k] == x);
                    assert(it.contains(x));
                    if t.contains(x) {
                        let m = choose|m: int| 0 <= m < t.len() && t[m] == x;
                        assert(s[m] == x);
                    }
                } else {
                    assert(s[s.len() - 1] == x);
                }
            }
            if s.contains(x) {
                let k = choose|k: int| 0 <= k < s.len() && s[k] == x;
                if k < s.len() - 1 {
                    assert(t[k] == x);
                    assert(t.contains(x));
                    assert(it.contains(x));
                    let m = choose|m: int| 0 <= m < it.len() && it[m] == x;
                    assert(it.push(s.last())[m] == x);
                } else {
                    assert(it.push(s.last())[it.len() as int] == x);
                }
            }
            if x == d {
                assert(it.contains(d));
                let m = choose|m: int| 0 <= m < it.len() && it[m] == d;
                assert(it.push(s.last())[m] == x);
            }
        }
        if in_source_order(s) {
            assert(in_source_order(t));
            assert forall|k: int| 0 <= k < it.len() implies diag_start(#[trigger] it[k]) <= diag_start(s.last()) by {
                assert(it.contains(it[k]));
                if it[k] == d {
                } else {
                    assert(t.contains(it[k]));
                    let m = choose|m: int| 0 <= m < t.len() && t[m] == it[k];
                    assert(diag_start(s[m]) <= diag_start(s[s.len() - 1]));
                }
            }
            assert(in_source_order(it.push(s.last())));
        }
    }
}

/// Sorting by start byte gives diagnostics in source order, and keeps every diagnostic.
pub proof fn lemma_sort_by_start(ds: Seq<DiagnosticView>)
    ensures
        sort_by_start(ds).len() == ds.len(),
        in_source_order(sort_by_start(ds)),
        forall|x: DiagnosticView| #[trigger] sort_by_start(ds).contains(x) <==> ds.contains(x),
    decreases ds.len(),
{
    if ds.len() > 0 {
        let t = ds.drop_last();
        lemma_sort_by_start(t);
        lemma_insert_keeps(sort_by_start(t), ds.last());
        assert forall|x: DiagnosticView| sort_by_start(ds).contains(x) <==> ds.contains(x) by {
            if t.contains(x) {
                let m = choose|m: int| 0 <= m < t.len() && t[m] == x;
                assert(ds[m] == x);
            }
            if ds.contains(x) {
                let m = choose|m: int| 0 <= m < ds.len() && ds[m] == x;
                if m < t.len() {
                    assert(t[m] == x);
                }
            }
        }
    }
}

fn diagnostic_start(d: &Diagnostic) -> (r: usize)
    ensures
        r == diag_start(d@),
{
    match &d.span {
        Some(s) => s.range.start,
        None => 0,
    }
}

/// Sorts diagnostics into source order, keeping the order of those that start at the same byte.
pub fn sort_diagnostics_by_start(ds: Vec<Diagnostic>) -> (r: Vec<Diagnostic>)
    ensures
        diagnostic_views(r@) == sort_by_start(diagnostic_views(ds@)),
{
    let ghost all = diagnostic_views(ds@);
    let mut rest = ds;
    let mut out: Vec<Diagnostic> = Vec::new();
    let ghost mut i: int = 0;
    proof {
        assert(all.take(0) =~= Seq::<DiagnosticView>::empty());
        assert(diagnostic_views(out@) =~= Seq::<DiagnosticView>::empty());
    }
    while rest.len() > 0
        invariant
            0 <= i <= all.len(),
            diagnostic_views(rest@) == all.skip(i),
            diagnostic_views(out@) == sort_by_start(all.take(i)),
        decreases rest@.len(),
    {
        let ghost before = rest@;
        let d = rest.remove(0);
        proof {
            assert(diagnostic_views(before)[0] == d@);
            assert(diagnostic_views(before).len() == all.len() - i);
            assert forall|k: int| 0 <= k < rest@.len() implies #[trigger] diagnostic_views(rest@)[k] == all.skip(i + 1)[k] by {
                assert(rest@[k] == before[k + 1]);
                assert(diagnostic_views(before)[k + 1] == all.skip(i)[k + 1]);
            }
            assert(diagnostic_views(rest@) =~= all.skip(i + 1));
        }
        let key = diagnostic_start(&d);
        let mut j: usize = out.len();
        while j > 0 && diagnostic_start(&out[j - 1]) > key
            invariant
                j <= out@.len(),
                forall|k: int| j <= k < out@.len() ==> diag_start(#[trigger] out@[k]@) > key,
            decreases j,
        {
            j = j - 1;
        }
        let ghost views_before = diagnostic_views(out@);
        proof {
            assert forall|k: int| j <= k < views_before.len() implies diag_start(#[trigger] views_before[k]) > diag_start(d@) by {
                assert(views_before[k] == out@[k]@);
            }
            if j > 0 {
                assert(views_before[j - 1] == out@[j - 1]@);
            }
            lemma_insert_at(views_before, d@, j as int);
        }
        let ghost dv = d@;
        out.insert(j, d);
        proof {
            assert(diagnostic_views(out@) =~= views_before.insert(j as int, dv));
            assert(i < all.len());
            assert(all.take(i + 1).drop_last() =~= all.take(i));
            assert(all.take(i + 1).last() == all.skip(i)[0]);
            i = i + 1;
        }
    }
    proof {
        assert(all.take(i) =~= all);
    }
    out
}

} // verus!
