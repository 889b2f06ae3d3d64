//! Parsing of `core.log` format strings.
use vstd::prelude::*;
use vstd::string::*;

use crate::text::{collect_chars, join, str_eq, string_views};

verus! {

/// Parsed `core.log` format string.
#[derive(Clone, Debug, PartialEq, Eq)]
pub struct LogFormat {
    /// Literal text segments surrounding `{}` placeholders.
    pub segments: Vec<String>,
}

impl LogFormat {
    /// Number of `{}` placeholders in the format string.
    pub fn placeholder_count(&self) -> (r: usize)
        ensures
            r == if self.segments@.len() == 0 {
                0
            } else {
                self.segments@.len() - 1
            },
    {
        let n = self.segments.len();
        if n == 0 {
            0
        } else {
            n - 1
        }
    }
}

/// `s` without its leading `"` characters.
pub open spec fn trim_quotes_start(s: Seq<char>) -> Seq<char>
    decreases s.len(),
{
    if s.len() > 0 && s[0] == '"' {
        trim_quotes_start(s.drop_first())
    } else {
        s
    }
}

/// `s` without its trailing `"` characters.
pub open spec fn trim_quotes_end(s: Seq<char>) -> Seq<char>
    decreases s.len(),
{
    if s.len() > 0 && s.last() == '"' {
        trim_quotes_end(s.drop_last())
    } else {
        s
    }
}

/// The value of resolver literal text `string(...)`: the text between `string(` and the final
/// `)`, without surrounding `"` characters.
pub open spec fn string_literal_value_spec(t: Seq<char>) -> Option<Seq<char>> {
    if t.len() >= 8 && t.take(7) == "string("@ && t.last() == ')' {
        Some(trim_quotes_end(trim_quotes_start(t.subrange(7, t.len() - 1))))
    } else {
        None
    }
}

/// Index of the first `{}` at or after `j`.
pub open spec fn first_placeholder(s: Seq<char>, j: int) -> Option<int>
    decreases s.len() - j,
{
    if j < 0 || j + 1 >= s.len() {
        None
    } else if s[j] == '{' && s[j + 1] == '}' {
        Some(j)
    } else {
        first_placeholder(s, j + 1)
    }
}

/// The text segments between `{}` placeholders, from `start` on.
pub open spec fn segments_from(s: Seq<char>, start: int) -> Seq<Seq<char>>
    decreases s.len() - start,
{
    if start < 0 || start > s.len() {
        Seq::empty()
    } else {
        match first_placeholder(s, start) {
            Some(i) => if start <= i && i + 2 <= s.len() {
                seq![s.subrange(start, i)] + segments_from(s, i + 2)
            } else {
                Seq::empty()
            },
            None => seq![s.subrange(start, s.len() as int)],
        }
    }
}

/// The number of `{}` placeholders from `start` on, each found left to right after the
/// previous one.
pub open spec fn placeholders_from(s: Seq<char>, start: int) -> nat
    decreases s.len() - start,
{
    if start < 0 || start > s.len() {
        0
    } else {
        match first_placeholder(s, start) {
            Some(i) => if start <= i && i + 2 <= s.len() {
                1 + placeholders_from(s, i + 2)
            } else {
                0
            },
            None => 0,
        }
    }
}

proof fn lemma_join_cons(a: Seq<char>, rest: Seq<Seq<char>>, sep: Seq<char>)
    requires
        rest.len() >= 1,
    ensures
        join(seq![a] + rest, sep) == a + sep + join(rest, sep),
    decreases rest.len(),
{
    let all = seq![a] + rest;
    if rest.len() == 1 {
        assert(all.drop_last() =~= seq![a]);
        assert(all.last() == rest[0]);
        assert(all.len() == 2);
        assert(join(seq![a], sep) == a);
        assert(join(rest, sep) == rest[0]);
        assert(join(all, sep) == join(all.drop_last(), sep) + sep + all.last());
    } else {
        assert(all.drop_last() =~= seq![a] + rest.drop_last());
        lemma_join_cons(a, rest.drop_last(), sep);
        assert(all.last() == rest.last());
        assert(join(all, sep) =~= a + sep + join(rest, sep));
    }
}

/// A format string splits into one more segment than it has placeholders, and joining the
/// segments with `{}` gives the string back.
pub proof fn lemma_segments_laws(s: Seq<char>, start: int)
    requires
        0 <= start <= s.len(),
    ensures
        segments_from(s, start).len() == placeholders_from(s, start) + 1,
        join(segments_from(s, start), "{}"@) == s.subrange(start, s.len() as int),
    decreases s.len() - start,
{
    lemma_first_placeholder(s, start);
    match first_placeholder(s, start) {
        Some(i) => {
            lemma_first_placeholder_is(s, start);
            lemma_segments_laws(s, i + 2);
            lemma_join_cons(s.subrange(start, i), segments_from(s, i + 2), "{}"@);
            assert(s.subrange(start, i) + "{}"@ + s.subrange(i + 2, s.len() as int) =~= s.subrange(
                start,
                s.len() as int,
            )) by {
                reveal_strlit("{}");
            }
        },
        None => {},
    }
}

proof fn lemma_first_placeholder_is(s: Seq<char>, j: int)
    requires
        0 <= j,
    ensures
        first_placeholder(s, j) matches Some(i) ==> s[i] == '{' && s[i + 1] == '}',
    decreases s.len() - j,
{
    if j + 1 < s.len() && !(s[j] == '{' && s[j + 1] == '}') {
        lemma_first_placeholder_is(s, j + 1);
    }
}

proof fn lemma_first_placeholder(s: Seq<char>, j: int)
    requires
        0 <= j,
    ensures
        first_placeholder(s, j) matches Some(i) ==> j <= i && i + 1 < s.len(),
    decreases s.len() - j,
{
    if j + 1 < s.len() && !(s[j] == '{' && s[j + 1] == '}') {
        lemma_first_placeholder(s, j + 1);
    }
}

/// Extracts the raw Maodie string literal value from resolver literal text.
pub fn string_literal_value(text: &str) -> (r: Option<String>)
    ensures
        r is Some <==> string_literal_value_spec(text@) is Some,
        r matches Some(v) ==> string_literal_value_spec(text@) == Some(v@),
{
    let chars = collect_chars(text);
    let n = chars.len();
    proof {
        reveal_strlit("string(");
    }
    if n < 8 || !str_eq(text.substring_char(0, 7), "string(") || chars[n - 1] != ')' {
        proof {
            if n >= 8 {
                assert(text@.take(7) =~= text@.subrange(0, 7));
            }
        }
        return None;
    }
    proof {
        assert(text@.take(7) =~= text@.subrange(0, 7));
    }
    let mut lo: usize = 7;
    let mut hi: usize = n - 1;
    proof {
        assert(trim_quotes_start(text@.subrange(7, n - 1)) == trim_quotes_start(
            text@.subrange(lo as int, hi as int),
        ));
    }
    while lo < hi && chars[lo] == '"'
        invariant
            7 <= lo <= hi == n - 1,
            chars@ == text@,
            n == text@.len(),
            trim_quotes_start(text@.subrange(7, n - 1)) == trim_quotes_start(
                text@.subrange(lo as int, hi as int),
            ),
        decreases hi - lo,
    {
        proof {
            assert(text@.subrange(lo as int, hi as int).drop_first() =~= text@.subrange(
                lo + 1,
                hi as int,
            ));
        }
        lo = lo + 1;
    }
    proof {
        assert(trim_quotes_start(text@.subrange(lo as int, hi as int)) == text@.subrange(
            lo as int,
            hi as int,
        ));
    }
    let ghost after_start = text@.subrange(lo as int, hi as int);
    while hi > lo && chars[hi - 1] == '"'
        invariant
            7 <= lo <= hi <= n - 1,
            chars@ == text@,
            n == text@.len(),
            trim_quotes_end(after_start) == trim_quotes_end(text@.subrange(lo as int, hi as int)),
        decreases hi - lo,
    {
        proof {
            assert(text@.subrange(lo as int, hi as int).drop_last() =~= text@.subrange(
                lo as int,
                hi - 1,
            ));
        }
        hi = hi - 1;
    }
    proof {
        assert(trim_quotes_end(text@.subrange(lo as int, hi as int)) == text@.subrange(
            lo as int,
            hi as int,
        ));
    }
    let value = text.substring_char(lo, hi);
    Some(value.to_owned())
}

/// Parses a `core.log` format string.
pub fn parse_log_format(text: &str) -> (r: Option<LogFormat>)
    ensures
        r is Some <==> string_literal_value_spec(text@) is Some,
        r matches Some(f) ==> string_views(f.segments@) == segments_from(
            string_literal_value_spec(text@)->Some_0,
            0,
        ),
        r matches Some(f) ==> f.segments@.len() == placeholders_from(string_literal_value_spec(text@)->Some_0, 0)
            + 1,
        r matches Some(f) ==> join(string_views(f.segments@), "{}"@) == string_literal_value_spec(text@)->Some_0,
{
    let value = match string_literal_value(text) {
        Some(value) => value,
        None => {
            return None;
        },
    };
    let s = value.as_str();
    let chars = collect_chars(s);
    let n = chars.len();
    let mut segments: Vec<String> = Vec::new();
    let mut start: usize = 0;
    let mut j: usize = 0;
    while n > 0 && j < n - 1
        invariant
            chars@ == s@,
            n == s@.len(),
            start <= j <= n,
            string_views(segments@) + segments_from(s@, start as int) == segments_from(s@, 0),
            first_placeholder(s@, start as int) == first_placeholder(s@, j as int),
        decreases n - j,
    {
        if chars[j] == '{' && chars[j + 1] == '}' {
            proof {
                lemma_first_placeholder(s@, start as int);
            }
            let piece = s.substring_char(start, j).to_owned();
            let ghost before = string_views(segments@);
            segments.push(piece);
            proof {
                assert(first_placeholder(s@, j as int) == Some(j as int));
                assert(string_views(segments@) =~= before.push(piece@));
                assert(segments_from(s@, start as int) == seq![s@.subrange(start as int, j as int)]
                    + segments_from(s@, j + 2));
                assert(string_views(segments@) + segments_from(s@, j + 2) =~= before
                    + segments_from(s@, start as int));
            }
            start = j + 2;
            j = j + 2;
        } else {
            j = j + 1;
        }
    }
    proof {
        lemma_first_placeholder(s@, start as int);
        assert(first_placeholder(s@, j as int) is None);
    }
    let piece = s.substring_char(start, n).to_owned();
    let ghost before = string_views(segments@);
    segments.push(piece);
    proof {
        assert(string_views(segments@) =~= before.push(piece@));
        assert(segments_from(s@, start as int) == seq![s@.subrange(start as int, n as int)]);
        assert(string_views(segments@) =~= before + segments_from(s@, start as int));
        lemma_segments_laws(s@, 0);
        assert(s@.subrange(0, s@.len() as int) =~= s@);
    }
    Some(LogFormat { segments })
}

} // verus!
