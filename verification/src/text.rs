//! Mathematical model of UTF-8 text: character widths, byte offsets, line and
//! column positions, and small verified string builders.
use vstd::prelude::*;
use vstd::string::*;
use vstd::utf8::*;

verus! {

/// Number of bytes in the UTF-8 encoding of `c`.
pub open spec fn utf8_width(c: char) -> nat {
    if (c as u32) < 0x80 {
        1
    } else if (c as u32) < 0x800 {
        2
    } else if (c as u32) < 0x10000 {
        3
    } else {
        4
    }
}

/// Number of bytes in the UTF-8 encoding of a character sequence.
pub open spec fn byte_len(s: Seq<char>) -> nat
    decreases s.len(),
{
    if s.len() == 0 {
        0
    } else {
        byte_len(s.drop_last()) + utf8_width(s.last())
    }
}

/// Byte offset at which character `k` of `s` starts.
pub open spec fn byte_offset(s: Seq<char>, k: int) -> nat {
    byte_len(s.take(k))
}

/// `b` is the byte offset of a character start or of the end of `s`.
pub open spec fn is_boundary(s: Seq<char>, b: int) -> bool {
    exists|k: int| 0 <= k <= s.len() && #[trigger] byte_offset(s, k) == b
}

/// 1-based line and column of character index `k`: lines advance after `\n`,
/// columns count Unicode scalars.
pub open spec fn line_col(s: Seq<char>, k: int) -> (int, int)
    decreases k,
{
    if k <= 0 {
        (1, 1)
    } else {
        let prev = line_col(s, k - 1);
        if s[k - 1] == '\n' {
            (prev.0 + 1, 1)
        } else {
            (prev.0, prev.1 + 1)
        }
    }
}

/// Byte offsets that start a line: `0`, then the offset after every `\n`
/// among the first `n` characters.
pub open spec fn line_starts_upto(s: Seq<char>, n: int) -> Seq<int>
    decreases n,
{
    if n <= 0 {
        seq![0int]
    } else if s[n - 1] == '\n' {
        line_starts_upto(s, n - 1).push(byte_offset(s, n) as int)
    } else {
        line_starts_upto(s, n - 1)
    }
}

/// Character indices that start a line, in the same order as [`line_starts_upto`].
pub open spec fn line_start_chars_upto(s: Seq<char>, n: int) -> Seq<int>
    decreases n,
{
    if n <= 0 {
        seq![0int]
    } else if s[n - 1] == '\n' {
        line_start_chars_upto(s, n - 1).push(n)
    } else {
        line_start_chars_upto(s, n - 1)
    }
}

/// Line-start byte offsets of a whole text.
pub open spec fn line_starts(s: Seq<char>) -> Seq<int> {
    line_starts_upto(s, s.len() as int)
}

/// Line-start character indices of a whole text.
pub open spec fn line_start_chars(s: Seq<char>) -> Seq<int> {
    line_start_chars_upto(s, s.len() as int)
}

/// `s` with every trailing `\r` and `\n` removed.
pub open spec fn trim_line_end(s: Seq<char>) -> Seq<char>
    decreases s.len(),
{
    if s.len() > 0 && (s.last() == '\r' || s.last() == '\n') {
        trim_line_end(s.drop_last())
    } else {
        s
    }
}

/// The decimal digit character for `d < 10`.
pub open spec fn digit_char(d: nat) -> char {
    if d == 0 {
        '0'
    } else if d == 1 {
        '1'
    } else if d == 2 {
        '2'
    } else if d == 3 {
        '3'
    } else if d == 4 {
        '4'
    } else if d == 5 {
        '5'
    } else if d == 6 {
        '6'
    } else if d == 7 {
        '7'
    } else if d == 8 {
        '8'
    } else {
        '9'
    }
}

/// Decimal representation of a natural number, without leading zeros.
pub open spec fn decimal(n: nat) -> Seq<char>
    decreases n,
{
    if n < 10 {
        seq![digit_char(n)]
    } else {
        decimal(n / 10).push(digit_char(n % 10))
    }
}

/// `s` repeated `n` times.
pub open spec fn repeat(s: Seq<char>, n: nat) -> Seq<char>
    decreases n,
{
    if n == 0 {
        Seq::empty()
    } else {
        repeat(s, (n - 1) as nat) + s
    }
}

/// Segments joined with a separator between consecutive segments.
pub open spec fn join(parts: Seq<Seq<char>>, sep: Seq<char>) -> Seq<char>
    decreases parts.len(),
{
    if parts.len() == 0 {
        Seq::empty()
    } else if parts.len() == 1 {
        parts[0]
    } else {
        join(parts.drop_last(), sep) + sep + parts.last()
    }
}

/// Views of a vector of strings.
pub open spec fn string_views(v: Seq<String>) -> Seq<Seq<char>> {
    v.map_values(|s: String| s@)
}

pub proof fn lemma_byte_len_push(s: Seq<char>, c: char)
    ensures
        byte_len(s.push(c)) == byte_len(s) + utf8_width(c),
{
    assert(s.push(c).drop_last() =~= s);
}

pub proof fn lemma_byte_len_concat(a: Seq<char>, b: Seq<char>)
    ensures
        byte_len(a + b) == byte_len(a) + byte_len(b),
    decreases b.len(),
{
    if b.len() == 0 {
        assert(a + b =~= a);
    } else {
        lemma_byte_len_concat(a, b.drop_last());
        assert((a + b).drop_last() =~= a + b.drop_last());
        assert((a + b).last() == b.last());
    }
}

pub proof fn lemma_byte_offset_step(s: Seq<char>, k: int)
    requires
        0 <= k < s.len(),
    ensures
        byte_offset(s, k + 1) == byte_offset(s, k) + utf8_width(s[k]),
{
    assert(s.take(k + 1) =~= s.take(k).push(s[k]));
    lemma_byte_len_push(s.take(k), s[k]);
}

pub proof fn lemma_byte_offset_zero(s: Seq<char>)
    ensures
        byte_offset(s, 0) == 0,
{
    assert(s.take(0) =~= Seq::<char>::empty());
}

pub proof fn lemma_byte_offset_full(s: Seq<char>)
    ensures
        byte_offset(s, s.len() as int) == byte_len(s),
{
    assert(s.take(s.len() as int) =~= s);
}

/// Byte offsets grow strictly with the character index.
pub proof fn lemma_byte_offset_strict(s: Seq<char>, i: int, j: int)
    requires
        0 <= i < j <= s.len(),
    ensures
        byte_offset(s, i) < byte_offset(s, j),
        byte_offset(s, j) - byte_offset(s, i) >= j - i,
    decreases j - i,
{
    lemma_byte_offset_step(s, j - 1);
    if i < j - 1 {
        lemma_byte_offset_strict(s, i, j - 1);
    }
}

pub proof fn lemma_byte_offset_mono(s: Seq<char>, i: int, j: int)
    requires
        0 <= i <= j <= s.len(),
    ensures
        byte_offset(s, i) <= byte_offset(s, j),
{
    if i < j {
        lemma_byte_offset_strict(s, i, j);
    }
}

/// At most one character index has a given byte offset.
pub proof fn lemma_byte_offset_injective(s: Seq<char>, i: int, j: int)
    requires
        0 <= i <= s.len(),
        0 <= j <= s.len(),
        byte_offset(s, i) == byte_offset(s, j),
    ensures
        i == j,
{
    if i < j {
        lemma_byte_offset_strict(s, i, j);
    } else if j < i {
        lemma_byte_offset_strict(s, j, i);
    }
}

/// The width used here is the length of the UTF-8 encoding of the character.
pub proof fn lemma_width_is_encoding_len(c: char)
    ensures
        encode_scalar(c as u32).len() == utf8_width(c),
{
    char_is_scalar(c);
}

/// The byte model agrees with the UTF-8 encoding of the text.
pub proof fn lemma_byte_len_is_encoding_len(s: Seq<char>)
    ensures
        encode_utf8(s).len() == byte_len(s),
    decreases s.len(),
{
    if s.len() > 0 {
        lemma_byte_len_is_encoding_len(s.drop_first());
        lemma_width_is_encoding_len(s[0]);
        let rest = s.drop_first();
        assert(s =~= seq![s[0]] + rest);
        lemma_byte_len_concat(seq![s[0]], rest);
        assert(seq![s[0]].drop_last() =~= Seq::<char>::empty());
        assert(seq![s[0]] =~= Seq::<char>::empty().push(s[0]));
        lemma_byte_len_push(Seq::<char>::empty(), s[0]);
        assert(byte_len(seq![s[0]]) == utf8_width(s[0]));
        assert(byte_len(s) == utf8_width(s[0]) + byte_len(rest));
        assert(encode_utf8(s).len() == encode_scalar(s[0] as u32).len() + encode_utf8(rest).len());
    }
}

pub proof fn lemma_line_starts_len(s: Seq<char>, n: int)
    requires
        0 <= n <= s.len(),
    ensures
        line_starts_upto(s, n).len() == line_start_chars_upto(s, n).len(),
        line_starts_upto(s, n).len() >= 1,
        line_starts_upto(s, n)[0] == 0,
        line_start_chars_upto(s, n)[0] == 0,
        forall|i: int|
            0 <= i < line_starts_upto(s, n).len() ==> {
                &&& 0 <= #[trigger] line_start_chars_upto(s, n)[i] <= n
                &&& line_starts_upto(s, n)[i] == byte_offset(s, line_start_chars_upto(s, n)[i])
            },
        forall|i: int, j: int|
            0 <= i < j < line_starts_upto(s, n).len() ==> #[trigger] line_start_chars_upto(s, n)[i]
                < #[trigger] line_start_chars_upto(s, n)[j],
    decreases n,
{
    if n == 0 {
        lemma_byte_offset_zero(s);
    } else {
        lemma_line_starts_len(s, n - 1);
    }
}

/// Character index `k` comes right after a newline.
pub open spec fn after_newline(s: Seq<char>, k: int) -> bool {
    1 <= k <= s.len() && s[k - 1] == '\n'
}

proof fn lemma_line_start_chars_exact(s: Seq<char>, n: int)
    requires
        0 <= n <= s.len(),
    ensures
        line_start_chars_upto(s, n).len() >= 1,
        line_start_chars_upto(s, n)[0] == 0,
        forall|i: int|
            0 < i < line_start_chars_upto(s, n).len() ==> 1 <= #[trigger] line_start_chars_upto(s, n)[i] <= n
                && s[line_start_chars_upto(s, n)[i] - 1] == '\n',
        forall|i: int, j: int|
            0 <= i < j < line_start_chars_upto(s, n).len() ==> #[trigger] line_start_chars_upto(s, n)[i]
                < #[trigger] line_start_chars_upto(s, n)[j],
        forall|k: int|
            k <= n && #[trigger] after_newline(s, k) ==> exists|i: int|
                0 <= i < line_start_chars_upto(s, n).len() && #[trigger] line_start_chars_upto(s, n)[i] == k,
    decreases n,
{
    if n > 0 {
        lemma_line_start_chars_exact(s, n - 1);
        let prev = line_start_chars_upto(s, n - 1);
        if s[n - 1] == '\n' {
            let cur = prev.push(n);
            assert(cur[cur.len() - 1] == n);
            assert forall|k: int| k <= n && #[trigger] after_newline(s, k) implies exists|i: int|
                0 <= i < cur.len() && #[trigger] cur[i] == k by {
                if k < n {
                    let i = choose|i: int| 0 <= i < prev.len() && #[trigger] prev[i] == k;
                    assert(cur[i] == k);
                } else {
                    assert(cur[cur.len() - 1] == k);
                }
            }
        }
    }
}

/// Line starts in bytes: the first line starts at byte 0, and every later line starts at the
/// byte right after a newline, for each newline of the text in order and no other offset.
pub proof fn lemma_line_starts_are_line_breaks(s: Seq<char>)
    ensures
        line_starts(s).len() == line_start_chars(s).len(),
        line_starts(s)[0] == 0,
        forall|i: int|
            0 <= i < line_starts(s).len() ==> #[trigger] line_starts(s)[i] == byte_offset(s, line_start_chars(s)[i]),
        forall|i: int|
            0 < i < line_start_chars(s).len() ==> 1 <= #[trigger] line_start_chars(s)[i] <= s.len()
                && s[line_start_chars(s)[i] - 1] == '\n',
        forall|i: int, j: int|
            0 <= i < j < line_start_chars(s).len() ==> #[trigger] line_start_chars(s)[i]
                < #[trigger] line_start_chars(s)[j],
        forall|k: int|
            #[trigger] after_newline(s, k) ==> exists|i: int|
                0 <= i < line_start_chars(s).len() && #[trigger] line_start_chars(s)[i] == k,
{
    lemma_line_starts_len(s, s.len() as int);
    lemma_line_start_chars_exact(s, s.len() as int);
    assert forall|i: int| 0 <= i < line_starts(s).len() implies #[trigger] line_starts(s)[i] == byte_offset(
        s,
        line_start_chars(s)[i],
    ) by {
        assert(0 <= line_start_chars_upto(s, s.len() as int)[i]);
    }
}

/// A character takes at most four bytes.
pub proof fn lemma_byte_len_le(s: Seq<char>)
    ensures
        byte_len(s) <= 4 * s.len(),
    decreases s.len(),
{
    if s.len() > 0 {
        lemma_byte_len_le(s.drop_last());
    }
}

pub proof fn lemma_len_le_byte_len(s: Seq<char>)
    ensures
        s.len() <= byte_len(s),
{
    lemma_byte_offset_zero(s);
    lemma_byte_offset_full(s);
    if s.len() > 0 {
        lemma_byte_offset_strict(s, 0, s.len() as int);
    }
}

pub proof fn lemma_line_col_bounds(s: Seq<char>, k: int)
    requires
        0 <= k,
    ensures
        line_col(s, k).0 >= 1,
        line_col(s, k).1 >= 1,
        line_col(s, k).0 + line_col(s, k).1 <= k + 2,
    decreases k,
{
    if k > 0 {
        lemma_line_col_bounds(s, k - 1);
    }
}

pub proof fn lemma_trim_line_end_len(s: Seq<char>)
    ensures
        trim_line_end(s).len() <= s.len(),
        trim_line_end(s) =~= s.take(trim_line_end(s).len() as int),
    decreases s.len(),
{
    if s.len() > 0 && (s.last() == '\r' || s.last() == '\n') {
        lemma_trim_line_end_len(s.drop_last());
        let t = trim_line_end(s.drop_last());
        assert(s.drop_last().take(t.len() as int) =~= s.take(t.len() as int));
    }
}

pub proof fn lemma_decimal_nonempty(n: nat)
    ensures
        decimal(n).len() >= 1,
    decreases n,
{
    if n >= 10 {
        lemma_decimal_nonempty(n / 10);
    }
}

// ---------------------------------------------------------------------------
// Executable helpers
// ---------------------------------------------------------------------------

/// UTF-8 width of one character.
pub fn char_width(c: char) -> (w: usize)
    ensures
        w == utf8_width(c),
        1 <= w <= 4,
{
    let v = c as u32;
    if v < 0x80 {
        1
    } else if v < 0x800 {
        2
    } else if v < 0x10000 {
        3
    } else {
        4
    }
}

/// All characters of a string slice, in order.
pub fn collect_chars(s: &str) -> (v: Vec<char>)
    ensures
        v@ == s@,
{
    let mut v: Vec<char> = Vec::new();
    for c in it: s.chars()
        invariant
            v@ == it.seq().take(it.index() as int),
            it.seq() == s@,
    {
        v.push(c);
    }
    v
}

/// The one-character string for a decimal digit.
pub fn digit_str(d: usize) -> (r: &'static str)
    requires
        d < 10,
    ensures
        r@ == seq![digit_char(d as nat)],
{
    proof {
        reveal_strlit("0");
        reveal_strlit("1");
        reveal_strlit("2");
        reveal_strlit("3");
        reveal_strlit("4");
        reveal_strlit("5");
        reveal_strlit("6");
        reveal_strlit("7");
        reveal_strlit("8");
        reveal_strlit("9");
    }
    match d {
        0 => "0",
        1 => "1",
        2 => "2",
        3 => "3",
        4 => "4",
        5 => "5",
        6 => "6",
        7 => "7",
        8 => "8",
        _ => "9",
    }
}

/// Appends the decimal representation of `n` to `out`.
pub fn push_decimal(out: &mut String, n: usize)
    ensures
        final(out)@ == old(out)@ + decimal(n as nat),
    decreases n,
{
    if n < 10 {
        out.append(digit_str(n));
    } else {
        push_decimal(out, n / 10);
        out.append(digit_str(n % 10));
        proof {
            assert(decimal(n as nat) == decimal((n / 10) as nat).push(digit_char((n % 10) as nat)));
        }
    }
}

/// Appends the decimal representation of a 64-bit `n` to `out`.
pub fn push_decimal_u64(out: &mut String, n: u64)
    ensures
        final(out)@ == old(out)@ + decimal(n as nat),
    decreases n,
{
    if n < 10 {
        out.append(digit_str(n as usize));
    } else {
        push_decimal_u64(out, n / 10);
        out.append(digit_str((n % 10) as usize));
        proof {
            assert(decimal(n as nat) == decimal((n / 10) as nat).push(digit_char((n % 10) as nat)));
        }
    }
}

/// Decimal representation of `n`.
pub fn decimal_string(n: usize) -> (r: String)
    ensures
        r@ == decimal(n as nat),
{
    let mut out = String::new();
    push_decimal(&mut out, n);
    proof {
        assert(Seq::<char>::empty() + decimal(n as nat) =~= decimal(n as nat));
    }
    out
}

/// Appends `s` repeated `n` times.
pub fn push_repeat(out: &mut String, s: &str, n: usize)
    ensures
        final(out)@ == old(out)@ + repeat(s@, n as nat),
{
    let ghost start = out@;
    let mut i: usize = 0;
    proof {
        assert(start + repeat(s@, 0) =~= start);
    }
    while i < n
        invariant
            i <= n,
            out@ == start + repeat(s@, i as nat),
        decreases n - i,
    {
        out.append(s);
        i = i + 1;
        proof {
            assert(repeat(s@, i as nat) == repeat(s@, (i - 1) as nat) + s@);
            assert(start + repeat(s@, i as nat) =~= start + repeat(s@, (i - 1) as nat) + s@);
        }
    }
}

/// Appends the strings of `parts` joined by `sep`.
pub fn push_join(out: &mut String, parts: &Vec<String>, sep: &str)
    ensures
        final(out)@ == old(out)@ + join(string_views(parts@), sep@),
{
    let ghost start = out@;
    let ghost views = string_views(parts@);
    let mut i: usize = 0;
    proof {
        assert(views.take(0) =~= Seq::<Seq<char>>::empty());
        assert(start + join(views.take(0), sep@) =~= start);
    }
    while i < parts.len()
        invariant
            i <= parts.len(),
            views == string_views(parts@),
            views.len() == parts.len(),
            out@ == start + join(views.take(i as int), sep@),
        decreases parts.len() - i,
    {
        if i > 0 {
            out.append(sep);
        }
        out.append(parts[i].as_str());
        i = i + 1;
        proof {
            let t = views.take(i as int);
            assert(t.drop_last() =~= views.take(i - 1));
            assert(t.last() == parts@[i - 1]@);
            if i == 1 {
                assert(join(views.take(0), sep@) =~= Seq::<char>::empty());
                assert(start + join(t, sep@) =~= start + Seq::<char>::empty() + parts@[0]@);
            } else {
                assert(start + join(t, sep@) =~= start + join(views.take(i - 1), sep@) + sep@
                    + parts@[i - 1]@);
            }
        }
    }
    proof {
        assert(views.take(parts.len() as int) =~= views);
    }
}

/// Whether two string slices hold the same characters.
pub fn str_eq(a: &str, b: &str) -> (r: bool)
    ensures
        r == (a@ == b@),
{
    let x = collect_chars(a);
    let y = collect_chars(b);
    if x.len() != y.len() {
        return false;
    }
    let mut i: usize = 0;
    while i < x.len()
        invariant
            x@ == a@,
            y@ == b@,
            x.len() == y.len(),
            i <= x.len(),
            forall|j: int| 0 <= j < i ==> x@[j] == y@[j],
        decreases x.len() - i,
    {
        if x[i] != y[i] {
            return false;
        }
        i = i + 1;
    }
    proof {
        assert(x@ =~= y@);
    }
    true
}

/// The UTF-8 byte length of `s` when it is at most `limit`.
pub fn byte_len_within(s: &str, limit: usize) -> (r: Option<usize>)
    ensures
        r matches Some(n) ==> n == byte_len(s@) && n <= limit,
        r is None ==> byte_len(s@) > limit,
{
    let chars = collect_chars(s);
    let mut total: usize = 0;
    let mut i: usize = 0;
    while i < chars.len()
        invariant
            i <= chars@.len(),
            chars@ == s@,
            total == byte_len(chars@.take(i as int)),
            total <= limit,
        decreases chars@.len() - i,
    {
        let w = char_width(chars[i]);
        proof {
            assert(chars@.take(i + 1).drop_last() =~= chars@.take(i as int));
        }
        if w > limit - total {
            proof {
                lemma_byte_len_prefix_le(chars@, i + 1);
            }
            return None;
        }
        total = total + w;
        i = i + 1;
    }
    proof {
        assert(chars@.take(chars@.len() as int) =~= chars@);
    }
    Some(total)
}

/// A prefix takes no more bytes than the whole.
pub proof fn lemma_byte_len_prefix_le(s: Seq<char>, k: int)
    requires
        0 <= k <= s.len(),
    ensures
        byte_len(s.take(k)) <= byte_len(s),
    decreases s.len() - k,
{
    if k < s.len() {
        lemma_byte_len_prefix_le(s, k + 1);
        assert(s.take(k + 1).drop_last() =~= s.take(k));
    } else {
        assert(s.take(k) =~= s);
    }
}

/// Copies a string slice into an owned string.
pub fn owned(s: &str) -> (r: String)
    ensures
        r@ == s@,
{
    s.to_owned()
}

} // verus!
