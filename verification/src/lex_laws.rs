//! Properties of lexing that incremental relexing relies on: a full pass splits at every token
//! start, and lexing from a position depends on the text from that position on alone, up to a
//! shift of every offset.
use vstd::prelude::*;

use crate::lexer::{
    diags_of, lemma_lex_from_bounds, lemma_lex_from_step, lex_from, lex_spec, lexed_tokens, scan, token_of,
    LexTok, TokenKind, TokenView,
};
use crate::source::SourceFile;
use crate::text::{byte_len, byte_offset, lemma_byte_len_concat, lemma_byte_offset_full};

verus! {

/// Grammar tokens from character `i` on, ending with the EOF marker.
pub open spec fn lex_tail(s: Seq<char>, i: int) -> Seq<LexTok> {
    lex_from(s, i).push(LexTok { kind: TokenKind::Eof, start: s.len() as int, end: s.len() as int })
}

/// The concrete tokens lexed from character `i` on, ending with the EOF token.
pub open spec fn tail_views(s: Seq<char>, i: int) -> Seq<TokenView> {
    lex_tail(s, i).map_values(|t: LexTok| token_of(s, t))
}

/// A grammar token moved by `c` characters.
pub open spec fn moved(t: LexTok, c: int) -> LexTok {
    LexTok { kind: t.kind, start: t.start + c, end: t.end + c }
}

/// Scanning never produces the EOF marker.
pub proof fn lemma_scan_not_eof(t: Seq<char>)
    requires
        t.len() > 0,
    ensures
        scan(t).0 != TokenKind::Eof,
{
}

/// The diagnostics of a token list depend on the id, name and text of the source alone.
pub proof fn lemma_diags_of_view(a: SourceFile, b: SourceFile, toks: Seq<LexTok>)
    requires
        a@ == b@,
    ensures
        diags_of(a, toks) == diags_of(b, toks),
    decreases toks.len(),
{
    if toks.len() > 0 {
        lemma_diags_of_view(a, b, toks.drop_last());
        assert(crate::lexer::error_diagnostic(a, toks.last()) == crate::lexer::error_diagnostic(
            b,
            toks.last(),
        ));
    }
}

/// `filter_map` distributes over concatenation.
pub proof fn lemma_filter_map_concat<A, B>(a: Seq<A>, b: Seq<A>, f: spec_fn(A) -> Option<B>)
    ensures
        (a + b).filter_map(f) == a.filter_map(f) + b.filter_map(f),
    decreases b.len(),
{
    if b.len() == 0 {
        assert(a + b =~= a);
        assert(a.filter_map(f) + b.filter_map(f) =~= a.filter_map(f));
    } else {
        lemma_filter_map_concat(a, b.drop_last(), f);
        assert((a + b).drop_last() =~= a + b.drop_last());
        assert((a + b).last() == b.last());
        match f(b.last()) {
            Some(x) => {
                assert((a + b).filter_map(f) =~= a.filter_map(f) + b.filter_map(f));
            },
            None => {},
        }
    }
}

/// A `filter_map` that keeps every element maps it.
pub proof fn lemma_filter_map_all_some<A, B>(s: Seq<A>, f: spec_fn(A) -> Option<B>, t: Seq<B>)
    requires
        s.len() == t.len(),
        forall|x: int| 0 <= x < s.len() ==> f(#[trigger] s[x]) == Some(t[x]),
    ensures
        s.filter_map(f) == t,
    decreases s.len(),
{
    if s.len() == 0 {
        assert(t =~= Seq::<B>::empty());
    } else {
        assert forall|x: int| 0 <= x < s.drop_last().len() implies f(
            #[trigger] s.drop_last()[x],
        ) == Some(t.drop_last()[x]) by {
            assert(s.drop_last()[x] == s[x]);
        }
        lemma_filter_map_all_some(s.drop_last(), f, t.drop_last());
        assert(f(s.last()) == Some(t.last()));
        assert(t =~= t.drop_last() + seq![t.last()]);
    }
}

/// A `filter_map` that keeps no element is empty.
pub proof fn lemma_filter_map_none<A, B>(s: Seq<A>, f: spec_fn(A) -> Option<B>)
    requires
        forall|x: int| 0 <= x < s.len() ==> f(#[trigger] s[x]) is None,
    ensures
        s.filter_map(f) == Seq::<B>::empty(),
    decreases s.len(),
{
    if s.len() > 0 {
        assert forall|x: int| 0 <= x < s.drop_last().len() implies f(
            #[trigger] s.drop_last()[x],
        ) is None by {
            assert(s.drop_last()[x] == s[x]);
        }
        lemma_filter_map_none(s.drop_last(), f);
    }
}

/// The EOF marker adds no diagnostic.
pub proof fn lemma_diags_of_tail(f: SourceFile, s: Seq<char>, i: int)
    ensures
        diags_of(f, lex_tail(s, i)) == diags_of(f, lex_from(s, i)),
{
    assert(lex_tail(s, i).drop_last() =~= lex_from(s, i));
}

/// A pass from `i` splits at the start of each of its tokens.
pub proof fn lemma_lex_from_split(s: Seq<char>, i: int, m: int)
    requires
        0 <= i,
        0 <= m < lex_from(s, i).len(),
    ensures
        lex_from(s, i).skip(m) == lex_from(s, lex_from(s, i)[m].start),
        lex_from(s, i).take(m) + lex_from(s, lex_from(s, i)[m].start) == lex_from(s, i),
    decreases s.len() - i,
{
    if i < s.len() {
        lemma_lex_from_step(s, i);
        let e = i + scan(s.skip(i)).1;
        if m > 0 {
            lemma_lex_from_split(s, e, m - 1);
            assert(lex_from(s, i).skip(m) =~= lex_from(s, e).skip(m - 1));
            assert(lex_from(s, i)[m] == lex_from(s, e)[m - 1]);
        } else {
            assert(lex_from(s, i).skip(0) =~= lex_from(s, i));
        }
        assert(lex_from(s, i).take(m) + lex_from(s, i).skip(m) =~= lex_from(s, i));
    }
}

/// The same split, with the EOF marker.
pub proof fn lemma_lex_tail_split(s: Seq<char>, i: int, m: int)
    requires
        0 <= i <= s.len(),
        0 <= m < lex_tail(s, i).len(),
    ensures
        lex_tail(s, i).skip(m) == lex_tail(s, lex_tail(s, i)[m].start),
        lex_tail(s, i).take(m) + lex_tail(s, lex_tail(s, i)[m].start) == lex_tail(s, i),
        0 <= lex_tail(s, i)[m].start <= s.len(),
{
    let n = lex_from(s, i).len() as int;
    lemma_lex_from_bounds(s, i);
    if m < n {
        lemma_lex_from_split(s, i, m);
        assert(lex_tail(s, i).skip(m) =~= lex_from(s, i).skip(m).push(
            LexTok { kind: TokenKind::Eof, start: s.len() as int, end: s.len() as int },
        ));
        assert(lex_tail(s, i).take(m) =~= lex_from(s, i).take(m));
    } else {
        assert(lex_from(s, s.len() as int) =~= Seq::<LexTok>::empty());
        assert(lex_tail(s, i).skip(m) =~= lex_tail(s, s.len() as int));
        assert(lex_tail(s, i).take(m) =~= lex_from(s, i));
    }
    assert(lex_tail(s, i).take(m) + lex_tail(s, i).skip(m) =~= lex_tail(s, i));
}

/// Tokens of a pass come in order: earlier tokens start before later ones, and the EOF marker
/// sits at the end of the text.
pub proof fn lemma_lex_tail_ordered(s: Seq<char>, i: int, a: int, b: int)
    requires
        0 <= i <= s.len(),
        0 <= a < b < lex_tail(s, i).len(),
    ensures
        lex_tail(s, i)[a].start < lex_tail(s, i)[a].end <= lex_tail(s, i)[b].start,
    decreases s.len() - i,
{
    lemma_lex_from_step(s, i);
    let e = i + scan(s.skip(i)).1;
    lemma_lex_from_bounds(s, e);
    if a == 0 {
        if b - 1 < lex_from(s, e).len() {
            assert(lex_tail(s, i)[b] == lex_from(s, e)[b - 1]);
        }
    } else {
        assert(lex_tail(s, i)[a] == lex_tail(s, e)[a - 1]);
        assert(lex_tail(s, i)[b] == lex_tail(s, e)[b - 1]);
        lemma_lex_tail_ordered(s, e, a - 1, b - 1);
    }
}

/// Lexing depends on the text from the starting position on: two texts that agree from their
/// starting positions give the same tokens, moved by the difference of the positions.
pub proof fn lemma_lex_from_shift(s1: Seq<char>, i1: int, s2: Seq<char>, i2: int)
    requires
        0 <= i1 <= s1.len(),
        0 <= i2 <= s2.len(),
        s1.skip(i1) == s2.skip(i2),
    ensures
        lex_from(s1, i1) == lex_from(s2, i2).map_values(|t: LexTok| moved(t, i1 - i2)),
    decreases s1.len() - i1,
{
    assert(s1.len() - i1 == s2.skip(i2).len());
    if i1 == s1.len() {
        assert(lex_from(s1, i1) =~= Seq::<LexTok>::empty());
        assert(lex_from(s2, i2) =~= Seq::<LexTok>::empty());
        assert(lex_from(s2, i2).map_values(|t: LexTok| moved(t, i1 - i2)) =~= Seq::<
            LexTok,
        >::empty());
    } else {
        lemma_lex_from_step(s1, i1);
        lemma_lex_from_step(s2, i2);
        let r = scan(s1.skip(i1)).1;
        assert(s1.skip(i1 + r) =~= s1.skip(i1).skip(r));
        assert(s2.skip(i2 + r) =~= s2.skip(i2).skip(r));
        lemma_lex_from_shift(s1, i1 + r, s2, i2 + r);
        assert(lex_from(s1, i1) =~= lex_from(s2, i2).map_values(|t: LexTok| moved(t, i1 - i2)));
    }
}

/// The byte offset of a position past `i` is the offset of `i` plus the bytes in between.
pub proof fn lemma_byte_offset_from(s: Seq<char>, i: int, m: int)
    requires
        0 <= i,
        0 <= m,
        i + m <= s.len(),
    ensures
        byte_offset(s, i + m) == byte_offset(s, i) + byte_len(s.skip(i).take(m)),
{
    assert(s.take(i + m) =~= s.take(i) + s.skip(i).take(m));
    lemma_byte_len_concat(s.take(i), s.skip(i).take(m));
}

/// Tokens lexed from positions where two texts agree have the same kinds and texts, and byte
/// ranges that differ by the difference of the starting offsets.
pub proof fn lemma_tail_views_shift(s1: Seq<char>, i1: int, s2: Seq<char>, i2: int)
    requires
        0 <= i1 <= s1.len(),
        0 <= i2 <= s2.len(),
        s1.skip(i1) == s2.skip(i2),
        byte_len(s1) <= usize::MAX,
        byte_len(s2) <= usize::MAX,
    ensures
        tail_views(s1, i1).len() == tail_views(s2, i2).len(),
        forall|k: int|
            0 <= k < tail_views(s1, i1).len() ==> {
                let a = #[trigger] tail_views(s1, i1)[k];
                let b = tail_views(s2, i2)[k];
                &&& a.kind == b.kind
                &&& a.text == b.text
                &&& a.range.start + byte_offset(s2, i2) == b.range.start + byte_offset(s1, i1)
                &&& a.range.end + byte_offset(s2, i2) == b.range.end + byte_offset(s1, i1)
            },
{
    lemma_lex_from_shift(s1, i1, s2, i2);
    lemma_lex_from_bounds(s2, i2);
    let c = i1 - i2;
    let o1 = byte_offset(s1, i1);
    let o2 = byte_offset(s2, i2);
    assert(s1.len() - i1 == s2.skip(i2).len());
    assert forall|k: int| 0 <= k < tail_views(s1, i1).len() implies {
        let a = #[trigger] tail_views(s1, i1)[k];
        let b = tail_views(s2, i2)[k];
        &&& a.kind == b.kind
        &&& a.text == b.text
        &&& a.range.start + o2 == b.range.start + o1
        &&& a.range.end + o2 == b.range.end + o1
    } by {
        let t1 = lex_tail(s1, i1)[k];
        let t2 = lex_tail(s2, i2)[k];
        if k < lex_from(s2, i2).len() {
            assert(t1 == moved(lex_from(s2, i2)[k], c));
            assert(t2 == lex_from(s2, i2)[k]);
        }
        assert(t1 == moved(t2, c));
        assert(i2 <= t2.start <= t2.end <= s2.len());
        lemma_byte_offset_from(s1, i1, t2.start - i2);
        lemma_byte_offset_from(s2, i2, t2.start - i2);
        lemma_byte_offset_from(s1, i1, t2.end - i2);
        lemma_byte_offset_from(s2, i2, t2.end - i2);
        crate::text::lemma_byte_offset_mono(s1, t1.end, s1.len() as int);
        crate::text::lemma_byte_offset_mono(s2, t2.end, s2.len() as int);
        crate::text::lemma_byte_offset_mono(s1, t1.start, t1.end);
        crate::text::lemma_byte_offset_mono(s2, t2.start, t2.end);
        crate::text::lemma_byte_offset_full(s1);
        crate::text::lemma_byte_offset_full(s2);
        assert(s1.subrange(t1.start, t1.end) =~= s1.skip(i1).subrange(t2.start - i2, t2.end - i2));
        assert(s2.subrange(t2.start, t2.end) =~= s2.skip(i2).subrange(t2.start - i2, t2.end - i2));
        assert(tail_views(s1, i1)[k] == token_of(s1, t1));
        assert(tail_views(s2, i2)[k] == token_of(s2, t2));
    }
}


/// The grammar tokens from character `i` on tile the rest of the text: the first starts at
/// `i`, each ends where the next starts, the last ends at the end of the text, and none is
/// the EOF marker.
proof fn lemma_lex_from_tiles(s: Seq<char>, i: int)
    requires
        0 <= i <= s.len(),
    ensures
        lex_from(s, i).len() == 0 <==> i == s.len(),
        lex_from(s, i).len() > 0 ==> lex_from(s, i)[0].start == i && lex_from(s, i).last().end == s.len(),
        forall|k: int|
            0 <= k < lex_from(s, i).len() - 1 ==> #[trigger] lex_from(s, i)[k].end == lex_from(s, i)[k + 1].start,
        forall|k: int| 0 <= k < lex_from(s, i).len() ==> (#[trigger] lex_from(s, i)[k]).kind != TokenKind::Eof,
    decreases s.len() - i,
{
    if i < s.len() {
        lemma_lex_from_step(s, i);
        lemma_scan_not_eof(s.skip(i));
        let n = scan(s.skip(i)).1;
        lemma_lex_from_tiles(s, i + n);
        let rest = lex_from(s, i + n);
        let all = lex_from(s, i);
        assert forall|k: int| 0 <= k < all.len() - 1 implies #[trigger] all[k].end == all[k + 1].start by {
            if k > 0 {
                assert(all[k] == rest[k - 1]);
                assert(all[k + 1] == rest[k]);
            }
        }
        assert forall|k: int| 0 <= k < all.len() implies (#[trigger] all[k]).kind != TokenKind::Eof by {
            if k > 0 {
                assert(all[k] == rest[k - 1]);
            }
        }
        if rest.len() > 0 {
            assert(all.last() == rest.last());
        }
    }
}

/// The lexer's tokens cover the text without gaps: the first starts at byte 0, each ends
/// where the next starts, and the stream ends with exactly one EOF token, empty, at the end of
/// the text.
pub proof fn lemma_lexed_tokens_contiguous(s: Seq<char>)
    ensures
        lexed_tokens(s).len() >= 1,
        lexed_tokens(s)[0].range.start == 0,
        forall|k: int|
            0 <= k < lexed_tokens(s).len() - 1 ==> #[trigger] lexed_tokens(s)[k].range.end == lexed_tokens(s)[k
                + 1].range.start,
        forall|k: int|
            0 <= k < lexed_tokens(s).len() - 1 ==> (#[trigger] lexed_tokens(s)[k]).kind != TokenKind::Eof,
        lexed_tokens(s).last().kind == TokenKind::Eof,
        lexed_tokens(s).last().range == (crate::source::TextRange {
            start: byte_len(s) as usize,
            end: byte_len(s) as usize,
        }),
{
    lemma_lex_from_tiles(s, 0);
    lemma_byte_offset_full(s);
    let toks = lex_spec(s);
    let lf = lex_from(s, 0);
    let v = lexed_tokens(s);
    assert(toks.len() == lf.len() + 1);
    assert(v[0] == token_of(s, toks[0]));
    if lf.len() > 0 {
        assert(toks[0] == lf[0]);
    }
    assert(byte_offset(s, 0) == 0) by {
        assert(s.take(0) =~= Seq::<char>::empty());
    }
    assert forall|k: int| 0 <= k < v.len() - 1 implies #[trigger] v[k].range.end == v[k + 1].range.start by {
        assert(v[k] == token_of(s, toks[k]));
        assert(v[k + 1] == token_of(s, toks[k + 1]));
        assert(toks[k] == lf[k]);
        if k + 1 < lf.len() {
            assert(toks[k + 1] == lf[k + 1]);
        } else {
            assert(lf.last() == lf[k]);
        }
    }
    assert forall|k: int| 0 <= k < v.len() - 1 implies (#[trigger] v[k]).kind != TokenKind::Eof by {
        assert(v[k] == token_of(s, toks[k]));
        assert(toks[k] == lf[k]);
    }
    assert(v.last() == token_of(s, toks.last()));
}

} // verus!
