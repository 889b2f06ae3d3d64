//! Source files, byte ranges and human-readable positions.
use vstd::prelude::*;
use vstd::string::*;

use crate::text::{
    byte_len, byte_offset, char_width, collect_chars, is_boundary, lemma_byte_offset_full,
    lemma_byte_offset_injective, lemma_byte_offset_mono, lemma_byte_offset_step,
    lemma_byte_offset_zero, lemma_len_le_byte_len, lemma_line_col_bounds, lemma_line_starts_len, line_col, line_start_chars,
    line_start_chars_upto, line_starts, line_starts_upto, trim_line_end,
};

verus! {

/// Stable identifier for a source file inside one compiler session.
#[derive(Clone, Copy, Debug, PartialEq, Eq, Structural, Hash, PartialOrd, Ord)]
pub struct SourceId(usize);

impl View for SourceId {
    type V = usize;

    closed spec fn view(&self) -> usize {
        self.0
    }
}

impl SourceId {
    /// Creates a source identifier from a caller-owned numeric id.
    pub fn new(value: usize) -> (r: Self)
        ensures
            r@ == value,
    {
        SourceId(value)
    }

    /// Returns the raw numeric id.
    pub fn get(self) -> (r: usize)
        ensures
            r == self@,
    {
        self.0
    }

    pub proof fn lemma_eq_from_view(a: Self, b: Self)
        requires
            a@ == b@,
        ensures
            a == b,
    {
    }
}

/// Half-open byte range in a UTF-8 source string.
#[derive(Clone, Copy, Debug, PartialEq, Eq, Structural)]
pub struct TextRange {
    /// Inclusive byte offset where the range starts.
    pub start: usize,
    /// Exclusive byte offset where the range ends.
    pub end: usize,
}

impl TextRange {
    /// Creates a half-open byte range; the start must not exceed the end.
    pub fn new(start: usize, end: usize) -> (r: Self)
        requires
            start <= end,
        ensures
            r.start == start,
            r.end == end,
    {
        TextRange { start, end }
    }

    /// Creates an empty range at one byte offset.
    pub fn at(offset: usize) -> (r: Self)
        ensures
            r.start == offset,
            r.end == offset,
    {
        TextRange { start: offset, end: offset }
    }

    /// Returns the byte length of the range.
    pub fn len(self) -> (r: usize)
        requires
            self.start <= self.end,
        ensures
            r == self.end - self.start,
    {
        self.end - self.start
    }

    /// Returns true when the range has no bytes.
    pub fn is_empty(self) -> (r: bool)
        ensures
            r == (self.start == self.end),
    {
        self.start == self.end
    }

    /// Returns true when `offset` is inside the half-open range.
    pub fn contains(self, offset: usize) -> (r: bool)
        ensures
            r == (self.start <= offset && offset < self.end),
    {
        self.start <= offset && offset < self.end
    }
}

/// 1-based human-readable line and column paired with the byte offset it describes.
#[derive(Clone, Copy, Debug, PartialEq, Eq, Structural)]
pub struct TextPosition {
    /// 1-based line number.
    pub line: usize,
    /// 1-based Unicode scalar column number.
    pub column: usize,
    /// Byte offset in the source string.
    pub byte_offset: usize,
}

/// Abstract content of a source file.
pub struct SourceView {
    pub id: SourceId,
    pub name: Seq<char>,
    pub text: Seq<char>,
}

/// Source text plus line index information.
#[derive(Debug)]
pub struct SourceFile {
    id: SourceId,
    name: String,
    text: String,
    chars: Vec<char>,
    char_starts: Vec<usize>,
    line_starts: Vec<usize>,
    line_start_chars: Vec<usize>,
}

impl View for SourceFile {
    type V = SourceView;

    closed spec fn view(&self) -> SourceView {
        SourceView { id: self.id, name: self.name@, text: self.text@ }
    }
}

/// Widens a sequence of machine integers.
pub open spec fn usize_seq_to_int(v: Seq<usize>) -> Seq<int> {
    v.map_values(|x: usize| x as int)
}

/// Well-formedness of the cached indexes of a text.
pub open spec fn source_indexes_wf(
    text: Seq<char>,
    chars: Seq<char>,
    char_starts: Seq<usize>,
    line_starts_v: Seq<usize>,
    line_start_chars_v: Seq<usize>,
) -> bool {
    &&& chars == text
    &&& byte_len(text) <= isize::MAX
    &&& char_starts.len() == text.len() + 1
    &&& forall|k: int| 0 <= k <= text.len() ==> #[trigger] char_starts[k] == byte_offset(text, k)
    &&& usize_seq_to_int(line_starts_v) == line_starts(text)
    &&& usize_seq_to_int(line_start_chars_v) == line_start_chars(text)
}

impl SourceFile {
    #[verifier::type_invariant]
    closed spec fn inv(&self) -> bool {
        source_indexes_wf(
            self.text@,
            self.chars@,
            self.char_starts@,
            self.line_starts@,
            self.line_start_chars@,
        )
    }

    /// Creates a source file and indexes line starts.
    pub fn new(id: SourceId, name: &str, text: &str) -> (r: Self)
        requires
            byte_len(text@) <= isize::MAX,
        ensures
            r@.id == id,
            r@.name == name@,
            r@.text == text@,
    {
        let chars = collect_chars(text);
        let n = chars.len();
        let mut char_starts: Vec<usize> = Vec::new();
        let mut line_starts_v: Vec<usize> = Vec::new();
        let mut line_start_chars_v: Vec<usize> = Vec::new();
        char_starts.push(0);
        line_starts_v.push(0);
        line_start_chars_v.push(0);
        let mut offset: usize = 0;
        let mut k: usize = 0;
        proof {
            lemma_byte_offset_zero(chars@);
            assert(usize_seq_to_int(line_starts_v@) =~= line_starts_upto(chars@, 0));
            assert(usize_seq_to_int(line_start_chars_v@) =~= line_start_chars_upto(chars@, 0));
        }
        while k < n
            invariant
                n == chars@.len(),
                chars@ == text@,
                byte_len(text@) <= isize::MAX,
                k <= n,
                offset == byte_offset(chars@, k as int),
                char_starts@.len() == k + 1,
                forall|j: int| 0 <= j <= k ==> #[trigger] char_starts@[j] == byte_offset(chars@, j),
                usize_seq_to_int(line_starts_v@) == line_starts_upto(chars@, k as int),
                usize_seq_to_int(line_start_chars_v@) == line_start_chars_upto(chars@, k as int),
            decreases n - k,
        {
            let c = chars[k];
            let w = char_width(c);
            proof {
                lemma_byte_offset_step(chars@, k as int);
                lemma_byte_offset_mono(chars@, k as int + 1, n as int);
                lemma_byte_offset_full(chars@);
            }
            offset = offset + w;
            k = k + 1;
            char_starts.push(offset);
            if c == '\n' {
                line_starts_v.push(offset);
                line_start_chars_v.push(k);
                proof {
                    assert(usize_seq_to_int(line_starts_v@) =~= line_starts_upto(chars@, k as int));
                    assert(usize_seq_to_int(line_start_chars_v@) =~= line_start_chars_upto(
                        chars@,
                        k as int,
                    ));
                }
            }
        }
        SourceFile {
            id,
            name: name.to_owned(),
            text: text.to_owned(),
            chars,
            char_starts,
            line_starts: line_starts_v,
            line_start_chars: line_start_chars_v,
        }
    }

    /// Returns the file id.
    pub fn id(&self) -> (r: SourceId)
        ensures
            r == self@.id,
    {
        self.id
    }

    /// Returns the display name or path for this source file.
    pub fn name(&self) -> (r: &str)
        ensures
            r@ == self@.name,
    {
        self.name.as_str()
    }

    /// Returns the full source text.
    pub fn text(&self) -> (r: &str)
        ensures
            r@ == self@.text,
    {
        self.text.as_str()
    }

    /// Returns the source length in bytes.
    pub fn len_bytes(&self) -> (r: usize)
        ensures
            r == byte_len(self@.text),
    {
        proof {
            use_type_invariant(self);
            lemma_byte_offset_full(self.chars@);
        }
        self.char_starts[self.chars.len()]
    }

    /// Returns true when the source text is empty.
    pub fn is_empty(&self) -> (r: bool)
        ensures
            r == (self@.text.len() == 0),
    {
        proof {
            use_type_invariant(self);
        }
        self.chars.len() == 0
    }

    /// Returns the number of indexed lines.
    pub fn line_count(&self) -> (r: usize)
        ensures
            r == line_starts(self@.text).len(),
    {
        proof {
            use_type_invariant(self);
        }
        self.line_starts.len()
    }

    /// Returns all 0-based byte offsets that start a line.
    pub fn line_start_offsets(&self) -> (r: &[usize])
        ensures
            usize_seq_to_int(r@) == line_starts(self@.text),
    {
        proof {
            use_type_invariant(self);
        }
        self.line_starts.as_slice()
    }

    /// Number of characters in the text.
    pub fn char_count(&self) -> (r: usize)
        ensures
            r == self@.text.len(),
            r <= isize::MAX,
            byte_len(self@.text) <= isize::MAX,
    {
        proof {
            use_type_invariant(self);
            lemma_len_le_byte_len(self.chars@);
        }
        self.chars.len()
    }

    /// Character at a character index.
    pub fn char_at(&self, k: usize) -> (r: char)
        requires
            k < self@.text.len(),
        ensures
            r == self@.text[k as int],
    {
        proof {
            use_type_invariant(self);
        }
        self.chars[k]
    }

    /// Byte offset at which character `k` starts (or the byte length for `k == len`).
    pub fn byte_at(&self, k: usize) -> (r: usize)
        requires
            k <= self@.text.len(),
        ensures
            r == byte_offset(self@.text, k as int),
    {
        proof {
            use_type_invariant(self);
        }
        self.char_starts[k]
    }

    /// The text between two character indexes.
    pub fn char_slice(&self, from: usize, to: usize) -> (r: &str)
        requires
            from <= to <= self@.text.len(),
        ensures
            r@ == self@.text.subrange(from as int, to as int),
            self@.text.len() <= isize::MAX,
            byte_len(self@.text) <= isize::MAX,
    {
        proof {
            use_type_invariant(self);
            lemma_len_le_byte_len(self.chars@);
        }
        self.text.as_str().substring_char(from, to)
    }

    /// The character index whose start is at byte `offset`, if any.
    pub fn char_index_at(&self, offset: usize) -> (r: Option<usize>)
        ensures
            r is Some <==> is_boundary(self@.text, offset as int),
            r matches Some(k) ==> k <= self@.text.len() && byte_offset(self@.text, k as int)
                == offset,
    {
        proof {
            use_type_invariant(self);
        }
        let ghost s = self.chars@;
        let n = self.chars.len();
        let mut lo: usize = 0;
        let mut hi: usize = n;
        if offset > self.char_starts[n] {
            proof {
                lemma_byte_offset_full(s);
                assert forall|k: int| 0 <= k <= s.len() implies #[trigger] byte_offset(s, k)
                    != offset by {
                    lemma_byte_offset_mono(s, k, s.len() as int);
                }
            }
            return None;
        }
        // Binary search for the largest index whose start is at most `offset`.
        while lo < hi
            invariant
                s == self.chars@,
                n == s.len(),
                self.char_starts@.len() == n + 1,
                forall|k: int| 0 <= k <= n ==> #[trigger] self.char_starts@[k] == byte_offset(s, k),
                lo <= hi <= n,
                byte_offset(s, lo as int) <= offset,
                offset <= byte_offset(s, n as int),
                hi < n ==> offset < byte_offset(s, hi as int + 1),
            decreases hi - lo,
        {
            let mid = hi - (hi - lo) / 2;
            if self.char_starts[mid] <= offset {
                lo = mid;
            } else {
                hi = mid - 1;
            }
        }
        if self.char_starts[lo] == offset {
            Some(lo)
        } else {
            proof {
                assert forall|k: int| 0 <= k <= s.len() implies #[trigger] byte_offset(s, k)
                    != offset by {
                    if k <= lo {
                        lemma_byte_offset_mono(s, k, lo as int);
                    } else {
                        lemma_byte_offset_mono(s, lo as int + 1, k);
                    }
                }
            }
            None
        }
    }

    /// Converts a valid UTF-8 byte offset into a 1-based line and column.
    ///
    /// Returns `None` when the offset is out of bounds or splits a UTF-8 code point.
    pub fn position_at(&self, offset: usize) -> (r: Option<TextPosition>)
        ensures
            r is Some <==> is_boundary(self@.text, offset as int),
            forall|k: int|
                0 <= k <= self@.text.len() && #[trigger] byte_offset(self@.text, k) == offset ==> {
                    &&& r matches Some(p)
                    &&& p.line == line_col(self@.text, k).0
                    &&& p.column == line_col(self@.text, k).1
                    &&& p.byte_offset == offset
                },
    {
        proof {
            use_type_invariant(self);
        }
        match self.char_index_at(offset) {
            None => None,
            Some(k) => {
                let (line, column) = self.line_col_at(k);
                proof {
                    assert forall|j: int|
                        0 <= j <= self@.text.len() && #[trigger] byte_offset(self@.text, j)
                            == offset implies j == k by {
                        lemma_byte_offset_injective(self@.text, j, k as int);
                    }
                }
                Some(TextPosition { line, column, byte_offset: offset })
            },
        }
    }

    /// Line and column of a character index.
    fn line_col_at(&self, k: usize) -> (r: (usize, usize))
        requires
            k <= self@.text.len(),
        ensures
            r.0 == line_col(self@.text, k as int).0,
            r.1 == line_col(self@.text, k as int).1,
    {
        proof {
            use_type_invariant(self);
        }
        let ghost s = self.chars@;
        let mut line: usize = 1;
        let mut column: usize = 1;
        proof {
            lemma_len_le_byte_len(s);
        }
        let mut j: usize = 0;
        while j < k
            invariant
                s == self.chars@,
                k <= s.len(),
                s.len() <= isize::MAX,
                j <= k,
                line == line_col(s, j as int).0,
                column == line_col(s, j as int).1,
                line + column <= j + 2,
            decreases k - j,
        {
            proof {
                lemma_line_col_bounds(s, j as int);
            }
            if self.chars[j] == '\n' {
                line = line + 1;
                column = 1;
            } else {
                column = column + 1;
            }
            j = j + 1;
        }
        (line, column)
    }

    /// Whether a range is ordered, in bounds, and aligned to UTF-8 boundaries.
    pub open spec fn is_valid_range_spec(&self, range: TextRange) -> bool {
        &&& range.start <= range.end
        &&& is_boundary(self@.text, range.start as int)
        &&& is_boundary(self@.text, range.end as int)
    }

    /// Returns true when the range is ordered, in bounds, and aligned to UTF-8 boundaries.
    pub fn is_valid_range(&self, range: TextRange) -> (r: bool)
        ensures
            r == self.is_valid_range_spec(range),
    {
        range.start <= range.end && self.char_index_at(range.start).is_some()
            && self.char_index_at(range.end).is_some()
    }

    /// Returns the 1-based line text without a trailing line ending.
    pub fn line_text(&self, line: usize) -> (r: Option<&str>)
        ensures
            r is Some <==> 1 <= line <= line_starts(self@.text).len(),
            r matches Some(t) ==> t@ == trim_line_end(
                self@.text.subrange(
                    line_start_chars(self@.text)[line - 1],
                    if line < line_start_chars(self@.text).len() {
                        line_start_chars(self@.text)[line as int]
                    } else {
                        self@.text.len() as int
                    },
                ),
            ),
    {
        proof {
            use_type_invariant(self);
            lemma_line_starts_len(self.chars@, self.chars@.len() as int);
        }
        let ghost s = self.chars@;
        let ghost lsc = line_start_chars(s);
        if line == 0 || line > self.line_start_chars.len() {
            return None;
        }
        let start = self.line_start_chars[line - 1];
        let end = if line < self.line_start_chars.len() {
            self.line_start_chars[line]
        } else {
            self.chars.len()
        };
        proof {
            assert(start == lsc[line - 1]);
            if line < lsc.len() {
                assert(end == lsc[line as int]);
                assert(lsc[line - 1] < lsc[line as int]);
            }
        }
        let mut trimmed = end;
        while trimmed > start && (self.chars[trimmed - 1] == '\r' || self.chars[trimmed - 1]
            == '\n')
            invariant
                s == self.chars@,
                start <= trimmed <= end <= s.len(),
                trim_line_end(s.subrange(start as int, end as int)) == trim_line_end(
                    s.subrange(start as int, trimmed as int),
                ),
            decreases trimmed,
        {
            proof {
                let t = s.subrange(start as int, trimmed as int);
                assert(t.drop_last() =~= s.subrange(start as int, trimmed - 1));
            }
            trimmed = trimmed - 1;
        }
        proof {
            let t = s.subrange(start as int, trimmed as int);
            assert(trim_line_end(t) == t);
        }
        Some(self.char_slice(start, trimmed))
    }
}

impl Clone for SourceFile {
    fn clone(&self) -> (r: Self)
        ensures
            r@ == self@,
    {
        proof {
            use_type_invariant(self);
        }
        let r = SourceFile {
            id: self.id,
            name: self.name.clone(),
            text: self.text.clone(),
            chars: self.chars.clone(),
            char_starts: self.char_starts.clone(),
            line_starts: self.line_starts.clone(),
            line_start_chars: self.line_start_chars.clone(),
        };
        proof {
            assert(r.chars@ =~= self.chars@);
            assert(r.char_starts@ =~= self.char_starts@);
            assert(r.line_starts@ =~= self.line_starts@);
            assert(r.line_start_chars@ =~= self.line_start_chars@);
        }
        r
    }
}

} // verus!
