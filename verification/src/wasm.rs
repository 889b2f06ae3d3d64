//! WASM v1 backend from MIR.
//!
//! The backend is deliberately MIR-only: codegen consumes a [`MirPackage`] plus the
//! backend-visible metadata copied into MIR lowering, and never reads HIR or AST shapes.
use vstd::prelude::*;
use vstd::string::*;

use crate::corelib::{
    WASM_HOST_MODULE, WASM_IMPORT_DEBUG_BOOL, WASM_IMPORT_DEBUG_I32, WASM_IMPORT_DEBUG_LOG_END,
    WASM_IMPORT_DEBUG_STRING, WASM_IMPORT_PANIC, WASM_MEMORY_EXPORT,
};
use crate::hir::{SymbolId, SymbolKind};
use crate::log_format::{
    parse_log_format, segments_from, string_literal_value, string_literal_value_spec, LogFormat,
};
use crate::mir::{
    last_segment, mir_function_wf, mir_package_wf, operand_ok, operands_ok, rvalue_ok, statement_ok,
    terminator_ok, BasicBlock, BasicBlockId, MirBranchPattern, MirConstant, MirFunction,
    MirLocalId, MirLocalKind, MirMatchTarget, MirOperand, MirPackage, MirPlace, MirRvalue, MirStatement,
    MirSymbol, MirTerminator, MirTypeKind,
};
use crate::text::{
    byte_len, collect_chars, decimal, digit_char, join, owned, push_decimal,
    str_eq, string_views,
};
use crate::typeck::TypeId;
use vstd::utf8::encode_utf8;

verus! {

/// Stable WAT debug dump artifact name.
pub const WAT_DUMP_NAME: &'static str = "module.wat";

/// Stable WASM binary artifact name.
pub const WASM_BINARY_NAME: &'static str = "module.wasm";

/// The note that every compilation reports first.
pub const WASM_LAYOUT_NOTE: &'static str = "v1 WASM layout maps i32, bool, Slice handles, and enum values to i32; direct String values use packed i64 ptr/len handles; managed allocation and GC are not emitted.";

const IMPORT_COUNT: u32 = 5;

const DEBUG_STRING_IMPORT_INDEX: u32 = 1;

const DEBUG_I32_IMPORT_INDEX: u32 = 2;

const DEBUG_BOOL_IMPORT_INDEX: u32 = 3;

const DEBUG_LOG_END_IMPORT_INDEX: u32 = 4;

/// Mask of the tag byte in a runtime enum value.
pub const VARIANT_TAG_MASK: i32 = 255;

const VARIANT_PAYLOAD_SHIFT: i32 = 8;

const STRING_DATA_BASE: u32 = 1024;

/// Largest size of the string data segment; strings beyond it are not placed.
const STRING_DATA_LIMIT: usize = 1073741824;

/// Largest number of blocks one MIR call executes.
pub const MIR_STEP_LIMIT: usize = 10000;

/// Largest nesting of MIR calls the execution helper follows.
pub const MIR_CALL_DEPTH: usize = 1000;

// ---------------------------------------------------------------------------
// Binary encoding
// ---------------------------------------------------------------------------

/// Unsigned LEB128 encoding.
pub open spec fn uleb(v: nat) -> Seq<u8>
    decreases v,
{
    if v < 128 {
        seq![v as u8]
    } else {
        seq![(v % 128 + 128) as u8] + uleb(v / 128)
    }
}

/// A section: its id, the LEB128 size of its payload, then the payload.
pub open spec fn section_bytes(id: u8, payload: Seq<u8>) -> Seq<u8> {
    seq![id] + uleb(payload.len()) + payload
}

/// The module preamble: magic number and version 1.
pub open spec fn wasm_header() -> Seq<u8> {
    seq![0x00u8, 0x61u8, 0x73u8, 0x6du8, 0x01u8, 0x00u8, 0x00u8, 0x00u8]
}

/// A name: its byte length in LEB128, then its UTF-8 bytes.
pub open spec fn name_bytes(s: Seq<char>) -> Seq<u8> {
    uleb(encode_utf8(s).len()) + encode_utf8(s)
}

/// One function import of the host module.
pub open spec fn import_entry(field: Seq<char>, type_index: nat) -> Seq<u8> {
    name_bytes(WASM_HOST_MODULE@) + name_bytes(field) + seq![0x00u8] + uleb(type_index)
}

/// The payload of the import section: the five host functions.
pub open spec fn import_payload() -> Seq<u8> {
    uleb(5) + import_entry(WASM_IMPORT_PANIC@, 0) + import_entry(WASM_IMPORT_DEBUG_STRING@, 0)
        + import_entry(WASM_IMPORT_DEBUG_I32@, 1) + import_entry(WASM_IMPORT_DEBUG_BOOL@, 1)
        + import_entry(WASM_IMPORT_DEBUG_LOG_END@, 2)
}

/// The payload of the memory section: one memory of one page.
pub open spec fn memory_payload() -> Seq<u8> {
    uleb(1) + seq![0x00u8] + uleb(1)
}

/// Type indexes `3 + i` of the first `n` functions.
pub open spec fn function_type_indexes(n: nat) -> Seq<u8>
    decreases n,
{
    if n == 0 {
        Seq::empty()
    } else {
        function_type_indexes((n - 1) as nat) + uleb((n + 2) as nat)
    }
}

/// The payload of the function section for `n` functions.
pub open spec fn function_payload(n: nat) -> Seq<u8> {
    uleb(n) + function_type_indexes(n)
}

/// The export entry of the function at position `i`: its name, then its index past the five
/// host imports.
pub open spec fn export_entry(f: MirFunction, i: nat) -> Seq<u8> {
    name_bytes(f.name@) + seq![0x00u8] + uleb(i + 5)
}

/// The export entries of functions, in order.
pub open spec fn function_exports(fs: Seq<MirFunction>) -> Seq<u8>
    decreases fs.len(),
{
    if fs.len() == 0 {
        Seq::empty()
    } else {
        function_exports(fs.drop_last()) + export_entry(fs.last(), (fs.len() - 1) as nat)
    }
}

/// The payload of the export section: the memory, then every function under its name.
pub open spec fn export_payload(fs: Seq<MirFunction>) -> Seq<u8> {
    uleb(fs.len() + 1) + name_bytes(WASM_MEMORY_EXPORT@) + seq![0x02u8] + uleb(0) + function_exports(
        fs,
    )
}

/// The sizes of the sections that list the functions fit their LEB128 fields.
pub open spec fn sections_encodable(fs: Seq<MirFunction>) -> bool {
    &&& fs.len() + 5 <= u32::MAX
    &&& forall|i: int| 0 <= i < fs.len() ==> encode_utf8((#[trigger] fs[i]).name@).len() <= u32::MAX
    &&& export_payload(fs).len() <= u32::MAX
    &&& function_payload(fs.len()).len() <= u32::MAX
}

/// The sections of a module after the type section: imports, one function entry per function,
/// the memory, and the exports, then the code and data sections.
pub open spec fn module_layout(wasm: Seq<u8>, tp: Seq<u8>, fs: Seq<MirFunction>, rest: Seq<u8>) -> bool {
    wasm == wasm_header() + section_bytes(1, tp) + section_bytes(2, import_payload())
        + section_bytes(3, function_payload(fs.len())) + section_bytes(5, memory_payload())
        + section_bytes(7, export_payload(fs)) + rest
}

/// `wasm` has that layout with type payload `tp`, unless a section is too large for its size
/// field.
pub open spec fn laid_out_or_oversized(wasm: Seq<u8>, tp: Seq<u8>, fs: Seq<MirFunction>, rest: Seq<u8>) -> bool {
    tp.len() > u32::MAX || !sections_encodable(fs) || module_layout(wasm, tp, fs, rest)
}

/// The module has that layout for some type payload, unless a section is too large for its size
/// field.
pub open spec fn laid_out_unless_oversized(wasm: Seq<u8>, fs: Seq<MirFunction>) -> bool {
    exists|tp: Seq<u8>, rest: Seq<u8>| #[trigger] laid_out_or_oversized(wasm, tp, fs, rest)
}

/// A `u32` clamped from a size; sizes beyond `u32` cannot be encoded.
fn clamp_u32(n: usize) -> (r: u32)
    ensures
        n <= u32::MAX ==> r == n,
        r == clamped(n as nat),
{
    if n <= 4294967295usize {
        n as u32
    } else {
        4294967295u32
    }
}

/// An `i32` clamped from an index; indexes beyond `i32` cannot be encoded.
fn clamp_i32(n: usize) -> (r: i32)
    ensures
        n <= i32::MAX ==> r == n,
        r == (if n <= i32::MAX { n as i32 } else { i32::MAX }),
{
    if n <= 2147483647usize {
        n as i32
    } else {
        2147483647i32
    }
}

/// A `u32` as an `i32`, saturating at `i32::MAX`.
pub open spec fn u32_as_i32(n: u32) -> i32 {
    if n <= i32::MAX {
        n as i32
    } else {
        i32::MAX
    }
}

fn u32_to_i32(n: u32) -> (r: i32)
    ensures
        n <= i32::MAX ==> r == n,
        r == u32_as_i32(n),
{
    if n <= 2147483647u32 {
        n as i32
    } else {
        2147483647i32
    }
}

/// Appends the unsigned LEB128 encoding of `value`.
fn encode_u32(value: u32, bytes: &mut Vec<u8>)
    ensures
        final(bytes)@ == old(bytes)@ + uleb(value as nat),
{
    let ghost target = old(bytes)@ + uleb(value as nat);
    let mut v = value;
    let mut done = false;
    while !done
        invariant
            !done ==> bytes@ + uleb(v as nat) == target,
            done ==> bytes@ == target,
        decreases v + (if done {
            0nat
        } else {
            1nat
        }),
    {
        let low = v & 127u32;
        let rest = v >> 7u32;
        assert(low == v % 128) by (bit_vector)
            requires
                low == v & 127u32,
        ;
        assert(rest == v / 128) by (bit_vector)
            requires
                rest == v >> 7u32,
        ;
        if rest != 0 {
            let byte = (low + 128) as u8;
            let ghost before = bytes@;
            bytes.push(byte);
            proof {
                assert(uleb(v as nat) == seq![(v % 128 + 128) as u8] + uleb((v / 128) as nat));
                assert(bytes@ + uleb(rest as nat) =~= before + uleb(v as nat));
            }
            v = rest;
        } else {
            let byte = low as u8;
            let ghost before = bytes@;
            bytes.push(byte);
            proof {
                assert(uleb(v as nat) == seq![v as u8]);
                assert(bytes@ =~= before + uleb(v as nat));
            }
            done = true;
        }
    }
}

/// Appends the signed LEB128 encoding of `value`.
/// Signed LEB128 groups of the two's complement bits of `v`, seven at a time from the lowest,
/// for at most `10 - count` more bytes: every byte but the last has its high bit set, and the
/// encoding stops once the rest is only sign bits that the last byte's bit 6 repeats.
pub open spec fn sleb_from(v: i64, count: nat) -> Seq<u8>
    decreases 10 - count,
{
    if count >= 10 {
        Seq::empty()
    } else {
        let byte = (v & 127i64) as u8;
        let rest = v >> 7u32;
        let sign = byte & 64u8;
        if (rest == 0 && sign == 0) || (rest == -1 && sign != 0) {
            seq![byte]
        } else {
            seq![byte | 128u8] + sleb_from(rest, count + 1)
        }
    }
}

/// The signed LEB128 encoding of a 64-bit integer.
pub open spec fn sleb(v: i64) -> Seq<u8> {
    sleb_from(v, 0)
}

fn encode_i64(value: i64, bytes: &mut Vec<u8>)
    ensures
        final(bytes)@ == old(bytes)@ + sleb(value),
{
    let mut v = value;
    let mut count: usize = 0;
    let mut done = false;
    while !done && count < 10
        invariant
            count <= 10,
            done ==> final_is(bytes@, old(bytes)@ + sleb(value)),
            !done ==> bytes@ + sleb_from(v, count as nat) == old(bytes)@ + sleb(value),
            !done && count >= 10 ==> bytes@ == old(bytes)@ + sleb(value),
        decreases 10 - count,
    {
        let ghost old_v = v;
        let byte = (v & 127i64) as u8;
        v = v >> 7u32;
        let sign = byte & 64u8;
        done = (v == 0 && sign == 0) || (v == -1 && sign != 0);
        let ghost before = bytes@;
        if done {
            bytes.push(byte);
        } else {
            bytes.push(byte | 128u8);
        }
        proof {
            if !done {
                assert(before + sleb_from(old_v, count as nat) == before.push(byte | 128u8) + sleb_from(v, (count + 1) as nat)) by {
                    assert(seq![byte | 128u8] + sleb_from(v, (count + 1) as nat) =~= sleb_from(old_v, count as nat));
                }
            } else {
                assert(sleb_from(old_v, count as nat) == seq![byte]);
                assert(before + seq![byte] =~= before.push(byte));
                assert(final_is(bytes@, old(bytes)@ + sleb(value)));
            }
        }
        count = count + 1;
    }
}

spec fn final_is(a: Seq<u8>, b: Seq<u8>) -> bool {
    a == b
}

/// Appends the signed LEB128 encoding of `value`.
fn encode_i32(value: i32, bytes: &mut Vec<u8>)
    ensures
        final(bytes)@ == old(bytes)@ + sleb(value as i64),
{
    encode_i64(value as i64, bytes);
}

/// Appends a name: its byte length, then its UTF-8 bytes.
fn encode_name(name: &str, bytes: &mut Vec<u8>)
    ensures
        encode_utf8(name@).len() <= u32::MAX ==> final(bytes)@ == old(bytes)@ + name_bytes(name@),
{
    let raw = vstd::slice::slice_to_vec(name.as_bytes());
    encode_u32(clamp_u32(raw.len()), bytes);
    let mut other = raw;
    bytes.append(&mut other);
}

/// A size, clamped to the largest `u32`.
pub open spec fn clamped(n: nat) -> nat {
    if n <= u32::MAX {
        n
    } else {
        u32::MAX as nat
    }
}

/// Appends a section with its id and payload size.
fn section(id: u8, payload: Vec<u8>, module: &mut Vec<u8>)
    ensures
        final(module)@ == old(module)@ + seq![id] + uleb(clamped(payload@.len())) + payload@,
        payload@.len() <= u32::MAX ==> final(module)@ == old(module)@ + section_bytes(id, payload@),
{
    module.push(id);
    encode_u32(clamp_u32(payload.len()), module);
    let mut other = payload;
    module.append(&mut other);
    proof {
        assert(final(module)@ =~= old(module)@ + seq![id] + uleb(clamped(payload@.len())) + payload@);
        if payload@.len() <= u32::MAX {
            assert(final(module)@ =~= old(module)@ + section_bytes(id, payload@));
        }
    }
}

fn import_func(field: &str, type_index: u32, payload: &mut Vec<u8>)
    ensures
        encode_utf8(field@).len() <= u32::MAX ==> final(payload)@ == old(payload)@ + import_entry(
            field@,
            type_index as nat,
        ),
{
    proof {
        reveal_strlit("maodie");
    }
    encode_name(WASM_HOST_MODULE, payload);
    encode_name(field, payload);
    payload.push(0u8);
    encode_u32(type_index, payload);
    proof {
        if encode_utf8(field@).len() <= u32::MAX {
            assert(encode_utf8(WASM_HOST_MODULE@).len() <= u32::MAX) by {
                reveal_strlit("maodie");
                assert(vstd::utf8::is_ascii_chars(WASM_HOST_MODULE@));
                vstd::utf8::is_ascii_chars_encode_utf8(WASM_HOST_MODULE@);
            }
            assert(final(payload)@ =~= old(payload)@ + import_entry(field@, type_index as nat));
        }
    }
}

fn instr_i32_const(value: i32, body: &mut Vec<u8>)
    ensures
        final(body)@ == old(body)@ + seq![65u8] + sleb(value as i64),
{
    body.push(65u8);
    encode_i32(value, body);
}

fn instr_i64_const(value: i64, body: &mut Vec<u8>)
    ensures
        final(body)@ == old(body)@ + seq![66u8] + sleb(value),
{
    body.push(66u8);
    encode_i64(value, body);
}

fn instr_local_get(index: u32, body: &mut Vec<u8>)
    ensures
        final(body)@ == old(body)@ + seq![32u8] + uleb(index as nat),
{
    body.push(32u8);
    encode_u32(index, body);
}

fn instr_local_set(index: u32, body: &mut Vec<u8>)
    ensures
        final(body)@ == old(body)@ + seq![33u8] + uleb(index as nat),
{
    body.push(33u8);
    encode_u32(index, body);
}

fn instr_br(depth: u32, body: &mut Vec<u8>)
    ensures
        final(body)@ == old(body)@ + seq![12u8] + uleb(depth as nat),
{
    body.push(12u8);
    encode_u32(depth, body);
}

fn instr_br_if(depth: u32, body: &mut Vec<u8>)
    ensures
        final(body)@ == old(body)@ + seq![13u8] + uleb(depth as nat),
{
    body.push(13u8);
    encode_u32(depth, body);
}

fn instr_call(index: u32, body: &mut Vec<u8>)
    ensures
        final(body)@ == old(body)@ + seq![16u8] + uleb(index as nat),
{
    body.push(16u8);
    encode_u32(index, body);
}

// ---------------------------------------------------------------------------
// Text helpers
// ---------------------------------------------------------------------------

fn push_u64(out: &mut String, n: u64)
    ensures
        final(out)@ == old(out)@ + decimal(n as nat),
    decreases n,
{
    if n >= 10 {
        push_u64(out, n / 10);
    }
    out.append(crate::text::digit_str((n % 10) as usize));
    proof {
        if n >= 10 {
            assert(decimal(n as nat) == decimal((n / 10) as nat).push(digit_char((n % 10) as nat)));
        }
    }
}

/// The decimal text of a signed integer: a minus sign before the magnitude of a negative one.
pub open spec fn signed_decimal(v: int) -> Seq<char> {
    if v < 0 {
        "-"@ + decimal((-v) as nat)
    } else {
        decimal(v as nat)
    }
}

fn push_i64(out: &mut String, v: i64)
    ensures
        final(out)@ == old(out)@ + signed_decimal(v as int),
{
    if v < 0 {
        out.append("-");
        let m: u64 = ((-(v + 1)) as u64) + 1;
        push_u64(out, m);
        proof {
            reveal_strlit("-");
            assert(m == -v);
            assert(final(out)@ =~= old(out)@ + ("-"@ + decimal((-v) as nat)));
        }
    } else {
        push_u64(out, v as u64);
    }
}

fn push_u32(out: &mut String, v: u32)
    ensures
        final(out)@ == old(out)@ + decimal(v as nat),
{
    push_u64(out, v as u64);
}

/// Whether `t` starts with `p`.
pub open spec fn has_prefix(t: Seq<char>, p: Seq<char>) -> bool {
    p.len() <= t.len() && t.take(p.len() as int) == p
}

/// The characters between the prefix `p` and a final `)`, when `t` has that shape.
pub open spec fn wrapped(t: Seq<char>, p: Seq<char>) -> Option<Seq<char>> {
    if has_prefix(t, p) && t.len() > p.len() && t.last() == ')' {
        Some(t.subrange(p.len() as int, t.len() - 1))
    } else {
        None
    }
}

/// An ASCII decimal digit.
pub open spec fn is_digit(c: char) -> bool {
    '0' <= c && c <= '9'
}

/// Every character is a decimal digit.
pub open spec fn all_digits(d: Seq<char>) -> bool {
    forall|i: int| 0 <= i < d.len() ==> is_digit(#[trigger] d[i])
}

/// The value of a sequence of decimal digits.
pub open spec fn digits_value(d: Seq<char>) -> int
    decreases d.len(),
{
    if d.len() == 0 {
        0
    } else {
        digits_value(d.drop_last()) * 10 + (d.last() as int - '0' as int)
    }
}

/// A decimal `i32` with an optional sign, as `str::parse` reads it.
pub open spec fn decimal_i32(s: Seq<char>) -> Option<i32> {
    let signed = s.len() > 0 && (s[0] == '+' || s[0] == '-');
    let d = if signed {
        s.skip(1)
    } else {
        s
    };
    if d.len() == 0 || !all_digits(d) {
        None
    } else if signed && s[0] == '-' {
        if digits_value(d) <= 2147483648 {
            Some((-digits_value(d)) as i32)
        } else {
            None
        }
    } else if digits_value(d) <= 2147483647 {
        Some(digits_value(d) as i32)
    } else {
        None
    }
}

/// The value of an `int(..)` literal.
pub open spec fn int_literal(t: Seq<char>) -> Option<i32> {
    match wrapped(t, "int("@) {
        Some(d) => decimal_i32(d),
        None => None,
    }
}

/// The value of a `bool(..)` literal.
pub open spec fn bool_literal(t: Seq<char>) -> Option<bool> {
    match wrapped(t, "bool("@) {
        Some(d) => if d == "true"@ {
            Some(true)
        } else if d == "false"@ {
            Some(false)
        } else {
            None
        },
        None => None,
    }
}

/// The `i32` a literal stands for at run time: an integer, or 1 and 0 for the booleans.
pub open spec fn literal_i32(t: Seq<char>) -> Option<i32> {
    match int_literal(t) {
        Some(v) => Some(v),
        None => match bool_literal(t) {
            Some(b) => Some(
                if b {
                    1i32
                } else {
                    0i32
                },
            ),
            None => None,
        },
    }
}

fn starts_with(text: &str, prefix: &str) -> (r: bool)
    ensures
        r == has_prefix(text@, prefix@),
{
    let t = collect_chars(text);
    let p = collect_chars(prefix);
    if t.len() < p.len() {
        return false;
    }
    let mut i: usize = 0;
    while i < p.len()
        invariant
            i <= p@.len(),
            p@.len() <= t@.len(),
            t@ == text@,
            p@ == prefix@,
            forall|k: int| 0 <= k < i ==> t@[k] == p@[k],
        decreases p@.len() - i,
    {
        if t[i] != p[i] {
            proof {
                assert(text@.take(prefix@.len() as int)[i as int] != prefix@[i as int]);
            }
            return false;
        }
        i = i + 1;
    }
    proof {
        assert(text@.take(prefix@.len() as int) =~= prefix@);
    }
    true
}

/// The characters between `prefix` and a final `)`, when `text` has that shape.
fn wrapped_value(text: &str, prefix: &str) -> (r: Option<Vec<char>>)
    ensures
        match wrapped(text@, prefix@) {
            Some(d) => r matches Some(v) && v@ == d,
            None => r is None,
        },
{
    if !starts_with(text, prefix) {
        return None;
    }
    let t = collect_chars(text);
    let p = collect_chars(prefix);
    if t.len() <= p.len() || t[t.len() - 1] != ')' {
        return None;
    }
    let mut out: Vec<char> = Vec::new();
    let mut i: usize = p.len();
    while i < t.len() - 1
        invariant
            p@.len() <= i,
            i <= t@.len() - 1,
            t@.len() >= 1,
            t@ == text@,
            p@ == prefix@,
            out@ == t@.subrange(p@.len() as int, i as int),
        decreases t@.len() - i,
    {
        out.push(t[i]);
        i = i + 1;
        proof {
            assert(out@ =~= t@.subrange(p@.len() as int, i as int));
        }
    }
    Some(out)
}

fn digit_value(c: char) -> (r: Option<u32>)
    ensures
        r is Some <==> is_digit(c),
        r matches Some(d) ==> d == c as int - '0' as int,
{
    if '0' <= c && c <= '9' {
        Some((c as u32) - ('0' as u32))
    } else {
        None
    }
}

proof fn lemma_digits_value_grows(d: Seq<char>, k: int)
    requires
        0 <= k <= d.len(),
        forall|i: int| 0 <= i < d.len() ==> is_digit(#[trigger] d[i]),
    ensures
        0 <= digits_value(d.take(k)) <= digits_value(d),
    decreases d.len() - k,
{
    if k < d.len() {
        lemma_digits_value_grows(d, k + 1);
        assert(d.take(k + 1).drop_last() =~= d.take(k));
        assert(d.take(k + 1).last() == d[k]);
        assert(is_digit(d[k]));
        let x = digits_value(d.take(k));
        assert(digits_value(d.take(k + 1)) == x * 10 + (d[k] as int - '0' as int));
        assert(x >= 0);
    } else {
        assert(d.take(k) =~= d);
        lemma_digits_value_nonneg(d);
    }
}

proof fn lemma_digits_value_nonneg(d: Seq<char>)
    requires
        forall|i: int| 0 <= i < d.len() ==> is_digit(#[trigger] d[i]),
    ensures
        0 <= digits_value(d),
    decreases d.len(),
{
    if d.len() > 0 {
        assert forall|i: int| 0 <= i < d.drop_last().len() implies is_digit(
            #[trigger] d.drop_last()[i],
        ) by {
            assert(d.drop_last()[i] == d[i]);
        }
        lemma_digits_value_nonneg(d.drop_last());
        assert(is_digit(d[d.len() - 1]));
    }
}

/// Parses a decimal `i32` with an optional sign, as `str::parse` does.
fn parse_i32(chars: &Vec<char>) -> (r: Option<i32>)
    ensures
        r == decimal_i32(chars@),
{
    let n = chars.len();
    if n == 0 {
        return None;
    }
    let mut i: usize = 0;
    let mut negative = false;
    if chars[0] == '+' || chars[0] == '-' {
        negative = chars[0] == '-';
        i = 1;
        if n == 1 {
            proof {
                assert(chars@.skip(1).len() == 0);
            }
            return None;
        }
    }
    let ghost start = i as int;
    proof {
        if start == 0 {
            assert(chars@.skip(0) =~= chars@);
        }
    }
    let ghost d = chars@.skip(start);
    let mut acc: i64 = 0;
    proof {
        assert(d.take(0) =~= Seq::<char>::empty());
    }
    while i < n
        invariant
            0 <= acc <= 2147483648i64,
            start <= i <= n,
            n == chars@.len(),
            d == chars@.skip(start),
            start == 0 || start == 1,
            n >= 1,
            start == 0 ==> d == chars@,
            (start == 1) == (chars@[0] == '+' || chars@[0] == '-'),
            negative == (start == 1 && chars@[0] == '-'),
            d.len() > 0,
            acc == digits_value(d.take(i - start)),
            forall|k: int| 0 <= k < i - start ==> is_digit(#[trigger] d[k]),
        decreases n - i,
    {
        let dv = match digit_value(chars[i]) {
            Some(v) => v,
            None => {
                proof {
                    assert(d[i - start] == chars@[i as int]);
                    assert(!is_digit(d[i - start]));
                    assert(!(forall|k: int| 0 <= k < d.len() ==> is_digit(#[trigger] d[k])));
                }
                return None;
            },
        };
        proof {
            assert(d.take(i - start + 1).drop_last() =~= d.take(i - start));
            assert(d.take(i - start + 1).last() == chars@[i as int]);
        }
        acc = acc * 10 + dv as i64;
        if acc > 2147483648i64 {
            proof {
                let j = i - start + 1;
                assert(acc == digits_value(d.take(j)));
                if all_digits(d) {
                    lemma_digits_value_grows(d, j);
                    assert(digits_value(d) > 2147483648);
                }
            }
            return None;
        }
        i = i + 1;
    }
    proof {
        assert(d.take(n - start) =~= d);
    }
    if negative {
        Some((-acc) as i32)
    } else if acc > 2147483647i64 {
        None
    } else {
        Some(acc as i32)
    }
}

fn int_literal_value(text: &str) -> (r: Option<i32>)
    ensures
        r == int_literal(text@),
{
    proof {
        reveal_strlit("int(");
    }
    match wrapped_value(text, "int(") {
        Some(chars) => parse_i32(&chars),
        None => None,
    }
}

fn bool_literal_value(text: &str) -> (r: Option<bool>)
    ensures
        r == bool_literal(text@),
{
    proof {
        reveal_strlit("bool(");
        reveal_strlit("true");
        reveal_strlit("false");
    }
    match wrapped_value(text, "bool(") {
        Some(chars) => {
            if chars.len() == 4 && chars[0] == 't' && chars[1] == 'r' && chars[2] == 'u' && chars[3]
                == 'e' {
                proof {
                    assert(chars@ =~= "true"@);
                }
                Some(true)
            } else if chars.len() == 5 && chars[0] == 'f' && chars[1] == 'a' && chars[2] == 'l'
                && chars[3] == 's' && chars[4] == 'e' {
                proof {
                    assert(chars@ =~= "false"@);
                }
                Some(false)
            } else {
                proof {
                    if chars@ == "true"@ {
                        assert(chars@.len() == 4);
                    }
                    if chars@ == "false"@ {
                        assert(chars@.len() == 5);
                    }
                }
                None
            }
        },
        None => None,
    }
}

fn literal_number(text: &str) -> (r: Option<i32>)
    ensures
        r == literal_i32(text@),
{
    match int_literal_value(text) {
        Some(v) => Some(v),
        None => match bool_literal_value(text) {
            Some(b) => Some(
                if b {
                    1
                } else {
                    0
                },
            ),
            None => None,
        },
    }
}

fn is_ascii_alphanumeric(c: char) -> (r: bool)
    ensures
        r == (('a' <= c && c <= 'z') || ('A' <= c && c <= 'Z') || ('0' <= c && c <= '9')),
{
    ('a' <= c && c <= 'z') || ('A' <= c && c <= 'Z') || ('0' <= c && c <= '9')
}

/// A name usable as a WAT identifier: other characters become `_`.
/// A character kept in a WAT identifier: an ASCII letter or digit, or `_`.
pub open spec fn wat_ident_char(c: char) -> bool {
    ('a' <= c && c <= 'z') || ('A' <= c && c <= 'Z') || ('0' <= c && c <= '9') || c == '_'
}

/// A name usable as a WAT identifier: other characters become `_`.
pub open spec fn wat_ident(name: Seq<char>) -> Seq<char> {
    name.map_values(
        |c: char|
            if wat_ident_char(c) {
                c
            } else {
                '_'
            },
    )
}

/// The WAT line that exports a function under its own name.
pub open spec fn export_line(f: MirFunction) -> Seq<char> {
    "  (export \""@ + f.name@ + "\" (func $"@ + wat_ident(f.name@) + "))"@ + "\n"@
}

/// The parameter declarations of the first `n` locals that are parameters.
spec fn wat_params(package: MirPackage, function: MirFunction, n: int) -> Seq<char>
    decreases n,
{
    if n <= 0 {
        Seq::empty()
    } else {
        wat_params(package, function, n - 1) + if function.locals@[n - 1].kind == MirLocalKind::Param {
            " (param $v"@ + decimal(function.locals@[n - 1].id@ as nat) + " "@ + wat_type(
                value_type_of(package, function.locals@[n - 1].ty),
            ) + ")"@
        } else {
            Seq::empty()
        }
    }
}

/// The local declaration lines of the first `n` locals that are not parameters.
spec fn wat_local_lines(package: MirPackage, function: MirFunction, n: int) -> Seq<char>
    decreases n,
{
    if n <= 0 {
        Seq::empty()
    } else {
        wat_local_lines(package, function, n - 1) + if function.locals@[n - 1].kind != MirLocalKind::Param {
            "    (local $v"@ + decimal(function.locals@[n - 1].id@ as nat) + " "@ + wat_type(
                local_type_of(package, function, function.locals@[n - 1]),
            ) + ")"@ + "\n"@
        } else {
            Seq::empty()
        }
    }
}

/// The header of a function: its name, parameters and result type.
spec fn wat_func_head(package: MirPackage, function: MirFunction) -> Seq<char> {
    "  (func $"@ + wat_ident(function.name@) + wat_params(package, function, function.locals@.len() as int) + if has_result(
        package,
        function,
    ) {
        " (result "@ + wat_type(value_type_of(package, function.return_type)) + ")"@
    } else {
        Seq::empty()
    }
}

/// The dispatcher's locals and the opening of its loop.
spec fn wat_func_frame(package: MirPackage, function: MirFunction) -> Seq<char> {
    "    (local $__ret "@ + wat_type(
        if has_result(package, function) {
            value_type_of(package, function.return_type)
        } else {
            WasmValueType::I32
        },
    ) + ")"@ + "\n"@ + "    (local $__bb i32)"@ + "\n"@ + "    (local $__done i32)"@ + "\n"@
        + "    (local $__matched i32)"@ + "\n"@ + "    (local $__string i64)"@ + "\n"@ + "    (block $__exit"@
        + "\n"@ + "      (loop $__dispatch"@ + "\n"@ + "        (br_if $__exit (local.get $__done))"@ + "\n"@
}

/// The dispatcher arm of one block: when the current block is this one, run it and loop.
spec fn wat_dispatch_arm(t: StringTable, layout: Layout, package: MirPackage, function: MirFunction, block: BasicBlock) -> Seq<char> {
    "        (if (i32.eq (local.get $__bb) (i32.const "@ + decimal(block.id@ as nat) + "))"@ + "\n"@
        + "          (then"@ + "\n"@ + wat_statements(
        t,
        layout,
        package,
        function,
        block.statements@,
        block.statements@.len() as int,
    ) + match block.terminator {
        Some(term) => wat_terminator(t, layout, term),
        None => "            (unreachable)"@ + "\n"@,
    } + "            (br $__dispatch)"@ + "\n"@ + "          )"@ + "\n"@ + "        )"@ + "\n"@
}

/// The dispatcher arms of the first `n` blocks.
spec fn wat_dispatch(t: StringTable, layout: Layout, package: MirPackage, function: MirFunction, blocks: Seq<BasicBlock>, n: int) -> Seq<char>
    decreases n,
{
    if n <= 0 {
        Seq::empty()
    } else {
        wat_dispatch(t, layout, package, function, blocks, n - 1) + wat_dispatch_arm(
            t,
            layout,
            package,
            function,
            blocks[n - 1],
        )
    }
}

proof fn lemma_wat_function_parts(
    t: StringTable,
    lay: Layout,
    pkg: MirPackage,
    f: MirFunction,
    base: Seq<char>,
    a: Seq<char>,
    b: Seq<char>,
    c: Seq<char>,
    d: Seq<char>,
    e: Seq<char>,
)
    requires
        a == base + wat_func_head(pkg, f) + "\n"@,
        b == a + wat_local_lines(pkg, f, f.locals@.len() as int),
        c == b + wat_func_frame(pkg, f),
        d == c + wat_dispatch(t, lay, pkg, f, f.blocks@, f.blocks@.len() as int),
        e == d + wat_func_tail(pkg, f),
    ensures
        e == base + wat_function(t, lay, pkg, f),
        grows(base, e),
        e.len() >= base.len() + export_line(f).len(),
        occurs_at(e, export_line(f), e.len() - export_line(f).len()),
{
    let s1 = wat_func_head(pkg, f) + "\n"@;
    let s2 = s1 + wat_local_lines(pkg, f, f.locals@.len() as int);
    let s3 = s2 + wat_func_frame(pkg, f);
    let s4 = s3 + wat_dispatch(t, lay, pkg, f, f.blocks@, f.blocks@.len() as int);
    let s5 = s4 + wat_func_tail(pkg, f);
    assert(b =~= base + s2);
    assert(c =~= base + s3);
    assert(d =~= base + s4);
    assert(e =~= base + s5);
    assert(s5 == wat_function(t, lay, pkg, f));
    let pt = "        (br $__dispatch)"@ + "\n"@ + "      )"@ + "\n"@ + "    )"@ + "\n"@ + (if has_result(pkg, f) {
        "    (return (local.get $__ret))"@
    } else {
        "    (return)"@
    }) + "\n"@ + "  )"@ + "\n"@;
    assert(wat_func_tail(pkg, f) == pt + export_line(f));
    assert(e =~= (d + pt) + export_line(f));
    assert(e.subrange(e.len() - export_line(f).len(), e.len() as int) =~= export_line(f));
}

/// The data segment lines of the first `n` string table entries.
spec fn wat_data_lines(entries: Seq<StringEntry>, n: int) -> Seq<char>
    decreases n,
{
    if n <= 0 {
        Seq::empty()
    } else {
        wat_data_lines(entries, n - 1) + "  (data (i32.const "@ + decimal(entries[n - 1].offset as nat) + ") \""@
            + escaped_text(entries[n - 1].text@) + "\")"@ + "\n"@
    }
}

/// The WAT text of the first `n` functions.
spec fn wat_functions(t: StringTable, layout: Layout, package: MirPackage, fs: Seq<MirFunction>, n: int) -> Seq<char>
    decreases n,
{
    if n <= 0 {
        Seq::empty()
    } else {
        wat_functions(t, layout, package, fs, n - 1) + wat_function(t, layout, package, fs[n - 1])
    }
}

/// `wat` is the WAT module of `package`: the prelude, a data segment per string table entry,
/// each function in order, and the closing parenthesis, for a string table that covers the
/// package's literals and the package's variant layout.
pub closed spec fn wat_module_of(package: MirPackage, wat: Seq<char>) -> bool {
    exists|t: StringTable, layout: Layout|
        package_covered(t, package) && layout.tags_for(package) && wat == wat_prelude() + wat_data_lines(
            t.entries@,
            t.entries@.len() as int,
        ) + wat_functions(t, layout, package, package.functions@, package.functions@.len() as int) + ")"@
            + "\n"@
}

/// The WAT text of a function: header, locals, a loop that dispatches on the current block
/// until a return sets the done flag, the return, and the export line.
spec fn wat_function(t: StringTable, layout: Layout, package: MirPackage, function: MirFunction) -> Seq<char> {
    wat_func_head(package, function) + "\n"@ + wat_local_lines(package, function, function.locals@.len() as int)
        + wat_func_frame(package, function) + wat_dispatch(
        t,
        layout,
        package,
        function,
        function.blocks@,
        function.blocks@.len() as int,
    ) + wat_func_tail(package, function)
}

/// The end of a function: leave the dispatcher, return, close, and export it.
spec fn wat_func_tail(package: MirPackage, function: MirFunction) -> Seq<char> {
    "        (br $__dispatch)"@ + "\n"@ + "      )"@ + "\n"@ + "    )"@ + "\n"@ + (if has_result(package, function) {
        "    (return (local.get $__ret))"@
    } else {
        "    (return)"@
    }) + "\n"@ + "  )"@ + "\n"@ + export_line(function)
}

/// `s` stands in `t` at position `p`.
pub open spec fn occurs_at(t: Seq<char>, s: Seq<char>, p: int) -> bool {
    0 <= p && p + s.len() <= t.len() && t.subrange(p, p + s.len()) == s
}

/// The function's export line stands somewhere in the text.
pub open spec fn exports(text: Seq<char>, f: MirFunction) -> bool {
    exists|p: int| occurs_at(text, export_line(f), p)
}

/// Every function has its export line in the text.
pub open spec fn exports_all(text: Seq<char>, fs: Seq<MirFunction>) -> bool {
    forall|i: int| 0 <= i < fs.len() ==> exports(text, #[trigger] fs[i])
}

/// `b` extends `a`.
pub open spec fn grows(a: Seq<char>, b: Seq<char>) -> bool {
    a.len() <= b.len() && forall|i: int| 0 <= i < a.len() ==> #[trigger] b[i] == a[i]
}

fn wasm_name(name: &str) -> (r: String)
    ensures
        r@ == wat_ident(name@),
{
    let chars = collect_chars(name);
    let mut out = String::new();
    let mut i: usize = 0;
    proof {
        reveal_strlit("_");
    }
    while i < chars.len()
        invariant
            i <= chars@.len(),
            chars@ == name@,
            out@ == wat_ident(name@.take(i as int)),
        decreases chars@.len() - i,
    {
        let c = chars[i];
        let ghost before = out@;
        if is_ascii_alphanumeric(c) || c == '_' {
            out.append(name.substring_char(i, i + 1));
            proof {
                assert(name@.subrange(i as int, i + 1) =~= seq![c]);
            }
        } else {
            proof {
                reveal_strlit("_");
            }
            out.append("_");
        }
        proof {
            assert(out@ =~= before.push(
                if wat_ident_char(c) {
                    c
                } else {
                    '_'
                },
            ));
            assert(name@.take(i + 1) =~= name@.take(i as int).push(c));
            assert(wat_ident(name@.take(i + 1)) =~= wat_ident(name@.take(i as int)).push(
                if wat_ident_char(c) {
                    c
                } else {
                    '_'
                },
            ));
        }
        i = i + 1;
    }
    proof {
        assert(name@.take(i as int) =~= name@);
    }
    out
}

/// The lowercase hexadecimal digit of `d`; values past 15 give `f`.
pub open spec fn hex_char(d: u8) -> char {
    if d < 10 {
        (d + 48) as char
    } else if d < 15 {
        (d + 87) as char
    } else {
        'f'
    }
}

fn hex_str(d: u8) -> (r: &'static str)
    ensures
        r@ == seq![hex_char(d)],
{
    proof {
        reveal_strlit("0");
        reveal_strlit("1");
        reveal_strlit("2");
        reveal_strlit("3");
        reveal_strlit("4");
        reveal_strlit("5");
        reveal_strlit("6");
        reveal_strlit("7");
        reveal_strlit("8");
        reveal_strlit("9");
        reveal_strlit("a");
        reveal_strlit("b");
        reveal_strlit("c");
        reveal_strlit("d");
        reveal_strlit("e");
        reveal_strlit("f");
    }
    match d {
        0 => "0",
        1 => "1",
        2 => "2",
        3 => "3",
        4 => "4",
        5 => "5",
        6 => "6",
        7 => "7",
        8 => "8",
        9 => "9",
        10 => "a",
        11 => "b",
        12 => "c",
        13 => "d",
        14 => "e",
        _ => "f",
    }
}

/// The WAT escape of one byte: a backslash and two lowercase hexadecimal digits.
pub open spec fn byte_escape(b: u8) -> Seq<char> {
    seq!['\\', hex_char(b / 16), hex_char(b % 16)]
}

/// The WAT escapes of a byte sequence, one after the other.
pub open spec fn byte_escapes(bs: Seq<u8>) -> Seq<char>
    decreases bs.len(),
{
    if bs.len() == 0 {
        Seq::empty()
    } else {
        byte_escapes(bs.drop_last()) + byte_escape(bs.last())
    }
}

/// The WAT string form of one character: printable ASCII stays as it is, except `"` and `\`,
/// which are escaped like every other byte of the character's UTF-8 encoding.
pub open spec fn escape_char(c: char) -> Seq<char> {
    let bs = encode_utf8(seq![c]);
    if bs.len() == 1 && bs[0] != 34u8 && bs[0] != 92u8 && 32u8 <= bs[0] <= 126u8 {
        seq![c]
    } else {
        byte_escapes(bs)
    }
}

/// The WAT string form of a text, character by character.
pub open spec fn escaped_text(s: Seq<char>) -> Seq<char>
    decreases s.len(),
{
    if s.len() == 0 {
        Seq::empty()
    } else {
        escaped_text(s.drop_last()) + escape_char(s.last())
    }
}

fn push_byte_escape(out: &mut String, b: u8)
    ensures
        final(out)@ == old(out)@ + byte_escape(b),
{
    out.append("\\");
    out.append(hex_str(b / 16));
    out.append(hex_str(b % 16));
    proof {
        reveal_strlit("\\");
        assert(final(out)@ =~= old(out)@ + byte_escape(b));
    }
}

/// WAT string escapes for the UTF-8 bytes of a text.
fn escape_wat_text(text: &str) -> (r: String)
    ensures
        r@ == escaped_text(text@),
{
    let chars = collect_chars(text);
    let mut escaped = String::new();
    let mut i: usize = 0;
    proof {
        reveal_strlit("\\22");
        reveal_strlit("\\5c");
        assert(text@.take(0) =~= Seq::<char>::empty());
    }
    while i < chars.len()
        invariant
            i <= chars@.len(),
            chars@ == text@,
            escaped@ == escaped_text(text@.take(i as int)),
        decreases chars@.len() - i,
    {
        let piece = text.substring_char(i, i + 1);
        let bytes = piece.as_bytes();
        let ghost before = escaped@;
        let ghost c = text@[i as int];
        proof {
            assert(piece@ =~= seq![c]);
            assert(text@.take(i + 1).drop_last() =~= text@.take(i as int));
            assert(text@.take(i + 1).last() == c);
            assert(bytes@ == encode_utf8(seq![c]));
        }
        if bytes.len() == 1 {
            let b = bytes[0];
            if b == 34u8 {
                escaped.append("\\22");
            } else if b == 92u8 {
                escaped.append("\\5c");
            } else if 32u8 <= b && b <= 126u8 {
                escaped.append(piece);
            } else {
                push_byte_escape(&mut escaped, b);
            }
            proof {
                assert(bytes@.drop_last() =~= Seq::<u8>::empty());
                assert(byte_escapes(bytes@.drop_last()) =~= Seq::<char>::empty());
                assert(bytes@.last() == b);
                assert(byte_escapes(bytes@) =~= byte_escape(b));
                reveal_strlit("\\22");
                reveal_strlit("\\5c");
                if b == 34u8 {
                    assert(hex_char(2) == '2');
                    assert(byte_escape(b) =~= "\\22"@);
                } else if b == 92u8 {
                    assert(hex_char(5) == '5');
                    assert(hex_char(12) == 'c');
                    assert(byte_escape(b) =~= "\\5c"@);
                }
                assert(escaped@ =~= before + escape_char(c));
            }
        } else {
            let mut k: usize = 0;
            proof {
                assert(bytes@.take(0) =~= Seq::<u8>::empty());
            }
            while k < bytes.len()
                invariant
                    k <= bytes@.len(),
                    escaped@ == before + byte_escapes(bytes@.take(k as int)),
                decreases bytes@.len() - k,
            {
                push_byte_escape(&mut escaped, bytes[k]);
                proof {
                    assert(bytes@.take(k + 1).drop_last() =~= bytes@.take(k as int));
                }
                k = k + 1;
            }
            proof {
                assert(bytes@.take(k as int) =~= bytes@);
            }
        }
        i = i + 1;
    }
    proof {
        assert(text@.take(i as int) =~= text@);
    }
    escaped
}

// ---------------------------------------------------------------------------
// Artifacts
// ---------------------------------------------------------------------------

#[derive(Clone, Copy, Debug, PartialEq, Eq, Structural)]
enum WasmValueType {
    I32,
    I64,
}

/// The binary encoding of a value type.
spec fn value_type_byte(t: WasmValueType) -> u8 {
    match t {
        WasmValueType::I32 => 127u8,
        WasmValueType::I64 => 126u8,
    }
}

/// The WAT name of a value type.
spec fn wat_type(t: WasmValueType) -> Seq<char> {
    match t {
        WasmValueType::I32 => "i32"@,
        WasmValueType::I64 => "i64"@,
    }
}

impl WasmValueType {
    fn wat(self) -> (r: &'static str)
        ensures
            r@ == wat_type(self),
    {
        match self {
            WasmValueType::I32 => "i32",
            WasmValueType::I64 => "i64",
        }
    }

    fn binary(self) -> (r: u8)
        ensures
            r == value_type_byte(self),
    {
        match self {
            WasmValueType::I32 => 127u8,
            WasmValueType::I64 => 126u8,
        }
    }
}

/// Structured output from the MIR-to-WASM backend.
#[derive(Debug)]
pub struct WasmArtifacts {
    /// Stable WAT debug output.
    pub wat: String,
    /// Encoded WebAssembly binary module.
    pub wasm: Vec<u8>,
    /// Backend artifact names.
    pub artifact_names: WasmArtifactNames,
    /// Non-fatal backend diagnostics and v1 limitations.
    pub diagnostics: Vec<WasmDiagnostic>,
}

/// Artifact field names exported by the v1 backend.
#[derive(Clone, Copy, Debug, PartialEq, Eq)]
pub struct WasmArtifactNames {
    /// WAT debug dump name.
    pub wat_dump: &'static str,
    /// WASM binary artifact name.
    pub wasm_binary: &'static str,
}

impl Default for WasmArtifactNames {
    fn default() -> (r: Self)
        ensures
            r.wat_dump@ == WAT_DUMP_NAME@,
            r.wasm_binary@ == WASM_BINARY_NAME@,
    {
        WasmArtifactNames { wat_dump: WAT_DUMP_NAME, wasm_binary: WASM_BINARY_NAME }
    }
}

/// Backend diagnostic.
#[derive(Debug)]
pub struct WasmDiagnostic {
    /// Human-readable diagnostic text.
    pub message: String,
}

fn wasm_note(message: &str) -> (r: WasmDiagnostic)
    ensures
        r.message@ == message@,
{
    WasmDiagnostic { message: owned(message) }
}

// ---------------------------------------------------------------------------
// Package queries
// ---------------------------------------------------------------------------

fn opt_item_eq(a: Option<crate::hir::ItemId>, b: Option<crate::hir::ItemId>) -> (r: bool)
    ensures
        r == (a == b),
{
    match (a, b) {
        (Some(x), Some(y)) => x == y,
        (None, None) => true,
        _ => false,
    }
}

/// The kind of type `ty` in the package's table, when it names an entry.
pub open spec fn kind_at(package: MirPackage, ty: Option<TypeId>) -> Option<MirTypeKind> {
    match ty {
        Some(t) => if t@ < package.types@.len() {
            Some(package.types@[t@ as int])
        } else {
            None
        },
        None => None,
    }
}

/// The WASM value type of a MIR type: `i64` for strings, `i32` otherwise.
spec fn value_type_of(package: MirPackage, ty: Option<TypeId>) -> WasmValueType {
    match kind_at(package, ty) {
        Some(MirTypeKind::String) => WasmValueType::I64,
        _ => WasmValueType::I32,
    }
}

fn type_kind_at(package: &MirPackage, ty: Option<TypeId>) -> (r: Option<&MirTypeKind>)
    ensures
        r is Some <==> kind_at(*package, ty) is Some,
        r matches Some(k) ==> kind_at(*package, ty) == Some(*k),
{
    match ty {
        Some(t) => {
            if t.get() < package.types.len() {
                Some(&package.types[t.get()])
            } else {
                None
            }
        },
        None => None,
    }
}

fn wasm_value_type(package: &MirPackage, ty: Option<TypeId>) -> (r: WasmValueType)
    ensures
        r == value_type_of(*package, ty),
{
    match type_kind_at(package, ty) {
        Some(MirTypeKind::String) => WasmValueType::I64,
        _ => WasmValueType::I32,
    }
}

fn function_return_value_type(package: &MirPackage, function: &MirFunction) -> (r: Option<WasmValueType>)
    ensures
        r == match kind_at(*package, function.return_type) {
            Some(MirTypeKind::Unit) | Some(MirTypeKind::Error) | None => None,
            Some(_) => Some(value_type_of(*package, function.return_type)),
        },
{
    match type_kind_at(package, function.return_type) {
        Some(MirTypeKind::Unit) | Some(MirTypeKind::Error) | None => None,
        Some(_) => Some(wasm_value_type(package, function.return_type)),
    }
}

/// The function returns a value: its return type is known and neither unit nor an error.
spec fn has_result(package: MirPackage, function: MirFunction) -> bool {
    match kind_at(package, function.return_type) {
        Some(MirTypeKind::Unit) | Some(MirTypeKind::Error) | None => false,
        Some(_) => true,
    }
}

fn function_result(package: &MirPackage, function: &MirFunction) -> (r: bool)
    ensures
        r == has_result(*package, *function),
{
    match type_kind_at(package, function.return_type) {
        Some(MirTypeKind::Unit) | Some(MirTypeKind::Error) | None => false,
        Some(_) => true,
    }
}

/// Statement `s` assigns a variant projection to local `local`.
pub open spec fn projects_variant_into(s: MirStatement, local: MirLocalId) -> bool {
    s matches MirStatement::Assign {
        place: MirPlace::Local(target),
        value: MirRvalue::ProjectVariant { .. },
        ..
    } && target@ == local@
}

/// Some statement of the function assigns a variant projection to `local`.
pub open spec fn has_variant_projection(function: MirFunction, local: MirLocalId) -> bool {
    exists|b: int, s: int|
        0 <= b < function.blocks@.len() && 0 <= s < function.blocks@[b].statements@.len()
            && projects_variant_into(#[trigger] function.blocks@[b].statements@[s], local)
}

fn local_is_variant_projection(function: &MirFunction, local: MirLocalId) -> (r: bool)
    ensures
        r == has_variant_projection(*function, local),
{
    let mut b: usize = 0;
    while b < function.blocks.len()
        invariant
            b <= function.blocks@.len(),
            forall|bb: int, ss: int|
                0 <= bb < b && 0 <= ss < function.blocks@[bb].statements@.len() ==> !projects_variant_into(
                    #[trigger] function.blocks@[bb].statements@[ss],
                    local,
                ),
        decreases function.blocks@.len() - b,
    {
        let block = &function.blocks[b];
        let mut s: usize = 0;
        while s < block.statements.len()
            invariant
                s <= block.statements@.len(),
                b < function.blocks@.len(),
                *block == function.blocks@[b as int],
                forall|bb: int, ss: int|
                    0 <= bb < b && 0 <= ss < function.blocks@[bb].statements@.len() ==> !projects_variant_into(
                        #[trigger] function.blocks@[bb].statements@[ss],
                        local,
                    ),
                forall|ss: int| 0 <= ss < s ==> !projects_variant_into(#[trigger] block.statements@[ss], local),
            decreases block.statements@.len() - s,
        {
            match &block.statements[s] {
                MirStatement::Assign { place: MirPlace::Local(target), value: MirRvalue::ProjectVariant { .. }, .. } => {
                    if target.get() == local.get() {
                        return true;
                    }
                },
                _ => {},
            }
            s = s + 1;
        }
        b = b + 1;
    }
    false
}

spec fn local_type_of(package: MirPackage, function: MirFunction, local: crate::mir::MirLocal) -> WasmValueType {
    if value_type_of(package, local.ty) == WasmValueType::I64 && has_variant_projection(function, local.id) {
        WasmValueType::I32
    } else {
        value_type_of(package, local.ty)
    }
}

fn local_value_type(package: &MirPackage, function: &MirFunction, local: &crate::mir::MirLocal) -> (r: WasmValueType)
    ensures
        r == local_type_of(*package, *function, *local),
{
    let ty = wasm_value_type(package, local.ty);
    if ty == WasmValueType::I64 && local_is_variant_projection(function, local.id) {
        WasmValueType::I32
    } else {
        ty
    }
}

/// `k` is the first position of a local with id `local`.
pub open spec fn first_local_at(function: MirFunction, local: MirLocalId, k: int) -> bool {
    &&& 0 <= k < function.locals@.len()
    &&& function.locals@[k].id@ == local@
    &&& forall|j: int| 0 <= j < k ==> (#[trigger] function.locals@[j]).id@ != local@
}

fn find_local<'f>(function: &'f MirFunction, local: MirLocalId) -> (r: Option<&'f crate::mir::MirLocal>)
    ensures
        r matches Some(l) ==> exists|k: int| #[trigger] first_local_at(*function, local, k) && *l == function.locals@[k],
        r is None <==> forall|k: int| 0 <= k < function.locals@.len() ==> (#[trigger] function.locals@[k]).id@ != local@,
{
    let mut i: usize = 0;
    while i < function.locals.len()
        invariant
            i <= function.locals@.len(),
            forall|j: int| 0 <= j < i ==> (#[trigger] function.locals@[j]).id@ != local@,
        decreases function.locals@.len() - i,
    {
        if function.locals[i].id.get() == local.get() {
            proof {
                assert(first_local_at(*function, local, i as int));
            }
            return Some(&function.locals[i]);
        }
        i = i + 1;
    }
    None
}

/// `k` is the first position of a symbol with id `symbol`.
pub open spec fn first_symbol_at(package: MirPackage, symbol: SymbolId, k: int) -> bool {
    &&& 0 <= k < package.symbols@.len()
    &&& package.symbols@[k].id@ == symbol@
    &&& forall|j: int| 0 <= j < k ==> (#[trigger] package.symbols@[j]).id@ != symbol@
}

/// The symbol is the host-backed function `core.log`.
pub open spec fn is_core_log_entry(s: crate::mir::MirSymbol) -> bool {
    &&& s.kind == SymbolKind::Function
    &&& s.path@.len() == 2
    &&& s.path@[0]@ == "core"@
    &&& s.path@[1]@ == "log"@
}

fn find_symbol<'p>(package: &'p MirPackage, symbol: SymbolId) -> (r: Option<&'p crate::mir::MirSymbol>)
    ensures
        r matches Some(s) ==> exists|k: int| #[trigger] first_symbol_at(*package, symbol, k) && *s == package.symbols@[k],
        r is None <==> forall|k: int| 0 <= k < package.symbols@.len() ==> (#[trigger] package.symbols@[k]).id@ != symbol@,
{
    let mut i: usize = 0;
    while i < package.symbols.len()
        invariant
            i <= package.symbols@.len(),
            forall|j: int| 0 <= j < i ==> (#[trigger] package.symbols@[j]).id@ != symbol@,
        decreases package.symbols@.len() - i,
    {
        if package.symbols[i].id.get() == symbol.get() {
            proof {
                assert(first_symbol_at(*package, symbol, i as int));
            }
            return Some(&package.symbols[i]);
        }
        i = i + 1;
    }
    None
}

proof fn lemma_first_symbol_unique(package: MirPackage, symbol: SymbolId, a: int, b: int)
    requires
        first_symbol_at(package, symbol, a),
        first_symbol_at(package, symbol, b),
    ensures
        a == b,
{
    if a < b {
        assert(package.symbols@[a].id@ != symbol@);
    } else if b < a {
        assert(package.symbols@[b].id@ != symbol@);
    }
}

fn is_core_log_symbol(package: &MirPackage, symbol: SymbolId) -> (r: bool)
    ensures
        r == exists|k: int| #[trigger] first_symbol_at(*package, symbol, k) && is_core_log_entry(
            package.symbols@[k],
        ),
{
    proof {
        reveal_strlit("core");
        reveal_strlit("log");
        assert forall|a: int, b: int| first_symbol_at(*package, symbol, a) && first_symbol_at(*package, symbol, b) implies a == b by {
            if a < b {
                assert(package.symbols@[a].id@ != symbol@);
            } else if b < a {
                assert(package.symbols@[b].id@ != symbol@);
            }
        }
    }
    match find_symbol(package, symbol) {
        Some(s) => s.kind == SymbolKind::Function && s.path.len() == 2 && str_eq(
            s.path[0].as_str(),
            "core",
        ) && str_eq(s.path[1].as_str(), "log"),
        None => false,
    }
}

/// The type of the first local with id `local`: its kind in the package is `Bool`.
spec fn first_local_has_kind(package: MirPackage, function: MirFunction, local: MirLocalId, kind: MirTypeKind) -> bool {
    exists|k: int| #[trigger] first_local_at(function, local, k) && kind_at(package, function.locals@[k].ty) == Some(kind)
}

spec fn operand_type_of(package: MirPackage, operand: MirOperand, function: MirFunction) -> WasmValueType {
    match operand {
        MirOperand::Const(MirConstant::Literal(text)) => if has_prefix(text@, "string("@) {
            WasmValueType::I64
        } else {
            WasmValueType::I32
        },
        MirOperand::Copy(MirPlace::Local(local)) => if exists|k: int| #[trigger] first_local_at(function, local, k) {
            local_type_of(package, function, function.locals@[choose|k: int| #[trigger] first_local_at(function, local, k)])
        } else {
            WasmValueType::I32
        },
        _ => WasmValueType::I32,
    }
}

fn operand_value_type(package: &MirPackage, operand: &MirOperand, function: &MirFunction) -> (r: WasmValueType)
    ensures
        r == operand_type_of(*package, *operand, *function),
{
    proof {
        reveal_strlit("string(");
        lemma_first_local_unique(*function);
    }
    match operand {
        MirOperand::Const(MirConstant::Literal(text)) => {
            if starts_with(text.as_str(), "string(") {
                WasmValueType::I64
            } else {
                WasmValueType::I32
            }
        },
        MirOperand::Copy(MirPlace::Local(local)) => match find_local(function, *local) {
            Some(l) => local_value_type(package, function, l),
            None => WasmValueType::I32,
        },
        _ => WasmValueType::I32,
    }
}

proof fn lemma_first_local_unique(function: MirFunction)
    ensures
        forall|l: MirLocalId, a: int, b: int|
            #[trigger] first_local_at(function, l, a) && #[trigger] first_local_at(function, l, b) ==> a == b,
{
    assert forall|l: MirLocalId, a: int, b: int|
        #[trigger] first_local_at(function, l, a) && #[trigger] first_local_at(function, l, b) implies a == b by {
        if a < b {
            assert(function.locals@[a].id@ != l@);
        } else if b < a {
            assert(function.locals@[b].id@ != l@);
        }
    }
}

fn operand_is_bool(package: &MirPackage, operand: &MirOperand, function: &MirFunction) -> (r: bool)
    ensures
        r == match *operand {
            MirOperand::Const(MirConstant::Literal(text)) => has_prefix(text@, "bool("@),
            MirOperand::Copy(MirPlace::Local(local)) => first_local_has_kind(
                *package,
                *function,
                local,
                MirTypeKind::Bool,
            ),
            _ => false,
        },
{
    proof {
        reveal_strlit("bool(");
        lemma_first_local_unique(*function);
    }
    match operand {
        MirOperand::Const(MirConstant::Literal(text)) => starts_with(text.as_str(), "bool("),
        MirOperand::Copy(MirPlace::Local(local)) => match find_local(function, *local) {
            Some(l) => match type_kind_at(package, l.ty) {
                Some(MirTypeKind::Bool) => true,
                _ => false,
            },
            None => false,
        },
        _ => false,
    }
}

fn log_format_of(operand: &MirOperand) -> (r: Option<LogFormat>)
    ensures
        r is Some <==> operand_string(*operand) is Some,
        r matches Some(f) ==> string_views(f.segments@) == segments_from(
            operand_string(*operand)->Some_0,
            0,
        ),
{
    match operand {
        MirOperand::Const(MirConstant::Literal(text)) => parse_log_format(text.as_str()),
        _ => None,
    }
}

// ---------------------------------------------------------------------------
// Layout
// ---------------------------------------------------------------------------

struct Layout {
    function_indices: Vec<(SymbolId, u32)>,
    variant_tags: Vec<(SymbolId, u32)>,
}

/// Position of the first entry from `i` on whose key is `k`.
pub open spec fn first_key<K, V>(entries: Seq<(K, V)>, k: K, i: int) -> Option<int>
    decreases entries.len() - i,
{
    if i < 0 || i >= entries.len() {
        None
    } else if entries[i].0 == k {
        Some(i)
    } else {
        first_key(entries, k, i + 1)
    }
}

/// The value of the first entry whose key is `k`.
pub open spec fn lookup<K, V>(entries: Seq<(K, V)>, k: K) -> Option<V> {
    match first_key(entries, k, 0) {
        Some(i) => Some(entries[i].1),
        None => None,
    }
}

proof fn lemma_first_key_bounds<K, V>(entries: Seq<(K, V)>, k: K, i: int)
    requires
        0 <= i,
    ensures
        first_key(entries, k, i) matches Some(x) ==> i <= x < entries.len() && entries[x].0 == k,
        first_key(entries, k, i) is None ==> forall|x: int|
            i <= x < entries.len() ==> (#[trigger] entries[x]).0 != k,
    decreases entries.len() - i,
{
    if i < entries.len() && entries[i].0 != k {
        lemma_first_key_bounds(entries, k, i + 1);
    }
}

proof fn lemma_first_key_same_keys<K, V>(a: Seq<(K, V)>, b: Seq<(K, V)>, k: K, i: int)
    requires
        a.len() == b.len(),
        forall|x: int| 0 <= x < a.len() ==> (#[trigger] a[x]).0 == b[x].0,
    ensures
        first_key(a, k, i) == first_key(b, k, i),
    decreases a.len() - i,
{
    if 0 <= i < a.len() && a[i].0 != k {
        lemma_first_key_same_keys(a, b, k, i + 1);
    }
}

proof fn lemma_first_key_push<K, V>(entries: Seq<(K, V)>, e: (K, V), k: K, i: int)
    requires
        0 <= i <= entries.len(),
    ensures
        first_key(entries.push(e), k, i) == match first_key(entries, k, i) {
            Some(x) => Some(x),
            None => if e.0 == k {
                Some(entries.len() as int)
            } else {
                None
            },
        },
    decreases entries.len() - i,
{
    let p = entries.push(e);
    if i < entries.len() {
        assert(p[i] == entries[i]);
        if entries[i].0 != k {
            lemma_first_key_push(entries, e, k, i + 1);
        }
    } else {
        assert(p[i] == e);
        assert(first_key(p, k, i + 1) is None);
    }
}

/// Replacing the value of the first entry with key `k` gives `k` the new value and leaves the
/// other keys alone.
proof fn lemma_lookup_set<K, V>(entries: Seq<(K, V)>, j: int, k: K, v: V)
    requires
        first_key(entries, k, 0) == Some(j),
    ensures
        lookup(entries.update(j, (k, v)), k) == Some(v),
        forall|o: K| o != k ==> lookup(entries.update(j, (k, v)), o) == lookup(entries, o),
{
    lemma_first_key_bounds(entries, k, 0);
    let e2 = entries.update(j, (k, v));
    assert forall|o: K| true implies first_key(e2, o, 0) == first_key(entries, o, 0) by {
        lemma_first_key_same_keys(e2, entries, o, 0);
    }
    assert forall|o: K| o != k implies lookup(e2, o) == lookup(entries, o) by {
        lemma_first_key_bounds(entries, o, 0);
    }
}

/// Appending an entry with a new key `k` gives `k` its value and leaves the other keys alone.
proof fn lemma_lookup_push<K, V>(entries: Seq<(K, V)>, k: K, v: V)
    requires
        first_key(entries, k, 0) is None,
    ensures
        lookup(entries.push((k, v)), k) == Some(v),
        forall|o: K| o != k ==> lookup(entries.push((k, v)), o) == lookup(entries, o),
{
    lemma_first_key_push(entries, (k, v), k, 0);
    assert forall|o: K| o != k implies lookup(entries.push((k, v)), o) == lookup(entries, o) by {
        lemma_first_key_push(entries, (k, v), o, 0);
        lemma_first_key_bounds(entries, o, 0);
    }
}

fn assoc_set(entries: &mut Vec<(SymbolId, u32)>, key: SymbolId, value: u32)
    ensures
        lookup(final(entries)@, key) == Some(value),
        forall|o: SymbolId| o != key ==> lookup(final(entries)@, o) == lookup(old(entries)@, o),
{
    let mut i: usize = 0;
    while i < entries.len()
        invariant
            i <= entries@.len(),
            entries@ == old(entries)@,
            first_key(entries@, key, 0) == first_key(entries@, key, i as int),
        decreases entries@.len() - i,
    {
        if entries[i].0 == key {
            proof {
                lemma_lookup_set(entries@, i as int, key, value);
            }
            entries.set(i, (key, value));
            return;
        }
        i = i + 1;
    }
    proof {
        lemma_lookup_push(entries@, key, value);
    }
    entries.push((key, value));
}

fn assoc_lookup(entries: &Vec<(SymbolId, u32)>, key: SymbolId) -> (r: Option<u32>)
    ensures
        r == lookup(entries@, key),
{
    let mut i: usize = 0;
    while i < entries.len()
        invariant
            i <= entries@.len(),
            first_key(entries@, key, 0) == first_key(entries@, key, i as int),
        decreases entries@.len() - i,
    {
        if entries[i].0 == key {
            return Some(entries[i].1);
        }
        i = i + 1;
    }
    None
}

/// A symbol is a variant of the given item.
pub open spec fn variant_of(sym: MirSymbol, item: Option<crate::hir::ItemId>) -> bool {
    sym.kind == SymbolKind::Variant && sym.item == item
}

/// The number of variants of `item` among the first `x` symbols.
pub open spec fn variants_before(symbols: Seq<MirSymbol>, item: Option<crate::hir::ItemId>, x: int) -> nat
    decreases x,
{
    if x <= 0 {
        0
    } else {
        variants_before(symbols, item, x - 1) + if variant_of(symbols[x - 1], item) {
            1nat
        } else {
            0nat
        }
    }
}

/// Position of the last variant symbol with id `id` among the first `x` symbols.
pub open spec fn last_variant(symbols: Seq<MirSymbol>, id: SymbolId, x: int) -> Option<int>
    decreases x,
{
    if x <= 0 {
        None
    } else if symbols[x - 1].kind == SymbolKind::Variant && symbols[x - 1].id == id {
        Some(x - 1)
    } else {
        last_variant(symbols, id, x - 1)
    }
}

/// The tag the layout gives a variant symbol among the first `x` symbols: the number of
/// variants of the same enum before it.
pub open spec fn variant_tag_upto(symbols: Seq<MirSymbol>, id: SymbolId, x: int) -> Option<u32> {
    match last_variant(symbols, id, x) {
        Some(y) => Some(clamped(variants_before(symbols, symbols[y].item, y)) as u32),
        None => None,
    }
}

/// The tag of a variant symbol in the runtime value representation: its position among the
/// variants of its enum, or the symbol id when the package declares no such variant.
pub open spec fn variant_tag_of(symbols: Seq<MirSymbol>, id: SymbolId) -> u32 {
    match variant_tag_upto(symbols, id, symbols.len() as int) {
        Some(t) => t,
        None => clamped(id@ as nat) as u32,
    }
}

impl Layout {
    /// The variant tags are those of [`variant_tag_of`] for the package's symbols.
    spec fn tags_for(&self, package: MirPackage) -> bool {
        forall|id: SymbolId|
            #[trigger] lookup(self.variant_tags@, id) == variant_tag_upto(
                package.symbols@,
                id,
                package.symbols@.len() as int,
            )
    }

    fn new(package: &MirPackage) -> (r: Self)
        ensures
            r.tags_for(*package),
    {
        let mut function_indices: Vec<(SymbolId, u32)> = Vec::new();
        let mut f: usize = 0;
        while f < package.functions.len()
            invariant
                f <= package.functions@.len(),
            decreases package.functions@.len() - f,
        {
            let function = &package.functions[f];
            if let Some(symbol) = function.symbol {
                let id = function.id.get();
                let index: u32 = if id <= 4294967290usize {
                    (id as u32) + IMPORT_COUNT
                } else {
                    4294967295u32
                };
                assoc_set(&mut function_indices, symbol, index);
            }
            f = f + 1;
        }
        let ghost syms = package.symbols@;
        let mut ordinals: Vec<(Option<crate::hir::ItemId>, u32)> = Vec::new();
        let mut variant_tags: Vec<(SymbolId, u32)> = Vec::new();
        let mut s: usize = 0;
        while s < package.symbols.len()
            invariant
                s <= package.symbols@.len(),
                syms == package.symbols@,
                forall|id: SymbolId|
                    #[trigger] lookup(variant_tags@, id) == variant_tag_upto(syms, id, s as int),
                forall|item: Option<crate::hir::ItemId>|
                    #[trigger] lookup(ordinals@, item) == if variants_before(syms, item, s as int)
                        > 0 {
                        Some(clamped(variants_before(syms, item, s as int)) as u32)
                    } else {
                        None
                    },
            decreases package.symbols@.len() - s,
        {
            let symbol = &package.symbols[s];
            if symbol.kind == SymbolKind::Variant {
                let ghost item = symbol.item;
                let ghost c = variants_before(syms, item, s as int);
                let mut k: usize = 0;
                while k < ordinals.len() && !opt_item_eq(ordinals[k].0, symbol.item)
                    invariant
                        k <= ordinals@.len(),
                        item == symbol.item,
                        first_key(ordinals@, item, 0) == first_key(ordinals@, item, k as int),
                    decreases ordinals@.len() - k,
                {
                    k = k + 1;
                }
                let found: Option<usize> = if k < ordinals.len() {
                    Some(k)
                } else {
                    None
                };
                proof {
                    if k < ordinals@.len() {
                        assert(first_key(ordinals@, item, 0) == Some(k as int));
                    } else {
                        assert(first_key(ordinals@, item, 0) is None);
                    }
                    lemma_first_key_bounds(ordinals@, item, 0);
                    assert(lookup(ordinals@, item) == if c > 0 {
                        Some(clamped(c) as u32)
                    } else {
                        None
                    });
                }
                let ordinal = match found {
                    Some(j) => ordinals[j].1,
                    None => 0u32,
                };
                proof {
                    assert(ordinal == clamped(c) as u32);
                    assert(variants_before(syms, item, s + 1) == c + 1);
                    assert forall|o: Option<crate::hir::ItemId>| o != item implies variants_before(
                        syms,
                        o,
                        s + 1,
                    ) == variants_before(syms, o, s as int) by {}
                    assert forall|id: SymbolId| id != symbol.id implies variant_tag_upto(
                        syms,
                        id,
                        s + 1,
                    ) == variant_tag_upto(syms, id, s as int) by {}
                    assert(variant_tag_upto(syms, symbol.id, s + 1) == Some(ordinal));
                }
                assoc_set(&mut variant_tags, symbol.id, ordinal);
                let next = if ordinal < 4294967295u32 {
                    ordinal + 1
                } else {
                    ordinal
                };
                proof {
                    assert(next == clamped(c + 1) as u32);
                }
                let ghost before = ordinals@;
                match found {
                    Some(j) => {
                        proof {
                            lemma_lookup_set(ordinals@, j as int, item, next);
                        }
                        ordinals.set(j, (symbol.item, next));
                    },
                    None => {
                        proof {
                            lemma_lookup_push(ordinals@, item, next);
                        }
                        ordinals.push((symbol.item, next));
                    },
                }
                proof {
                    assert forall|o: Option<crate::hir::ItemId>| #[trigger]
                        lookup(ordinals@, o) == if variants_before(syms, o, s + 1) > 0 {
                            Some(clamped(variants_before(syms, o, s + 1)) as u32)
                        } else {
                            None
                        } by {
                        if o != item {
                            assert(lookup(ordinals@, o) == lookup(before, o));
                            assert(variants_before(syms, o, s + 1) == variants_before(
                                syms,
                                o,
                                s as int,
                            ));
                        }
                    }
                }
            } else {
                proof {
                    assert forall|o: Option<crate::hir::ItemId>| true implies variants_before(
                        syms,
                        o,
                        s + 1,
                    ) == variants_before(syms, o, s as int) by {}
                    assert forall|id: SymbolId| true implies variant_tag_upto(syms, id, s + 1)
                        == variant_tag_upto(syms, id, s as int) by {}
                }
            }
            s = s + 1;
        }
        Layout { function_indices, variant_tags }
    }

    fn function_index(&self, symbol: SymbolId) -> (r: Option<u32>)
        ensures
            r == lookup(self.function_indices@, symbol),
    {
        assoc_lookup(&self.function_indices, symbol)
    }

    fn variant_tag(&self, symbol: SymbolId) -> (r: u32)
        ensures
            r == match lookup(self.variant_tags@, symbol) {
                Some(t) => t,
                None => clamped(symbol@ as nat) as u32,
            },
    {
        match assoc_lookup(&self.variant_tags, symbol) {
            Some(t) => t,
            None => clamp_u32(symbol.get()),
        }
    }
}

// ---------------------------------------------------------------------------
// String table
// ---------------------------------------------------------------------------

struct StringEntry {
    text: String,
    offset: u32,
}

struct StringTable {
    entries: Vec<StringEntry>,
    used: usize,
}

/// Some entry of the table holds text `v`.
spec fn table_holds(t: StringTable, v: Seq<char>) -> bool {
    exists|k: int| 0 <= k < t.entries@.len() && (#[trigger] t.entries@[k]).text@ == v
}

/// `k` is the first entry of the table with text `v`.
spec fn first_entry_at(t: StringTable, v: Seq<char>, k: int) -> bool {
    &&& 0 <= k < t.entries@.len()
    &&& t.entries@[k].text@ == v
    &&& forall|j: int| 0 <= j < k ==> (#[trigger] t.entries@[j]).text@ != v
}

/// `t2` keeps every entry of `t1`, in place, and has used at least as much data.
spec fn table_grows(t2: StringTable, t1: StringTable) -> bool {
    &&& t1.entries@.len() <= t2.entries@.len()
    &&& forall|k: int| 0 <= k < t1.entries@.len() ==> #[trigger] t2.entries@[k] == t1.entries@[k]
    &&& t1.used <= t2.used
}

/// Text `v` is in the table, or it no longer fits in the data segment.
spec fn table_covers(t: StringTable, v: Seq<char>) -> bool {
    table_holds(t, v) || text_len(v) >= STRING_DATA_LIMIT - t.used
}

/// The byte length of text `v`, as the machine reports it.
spec fn text_len(v: Seq<char>) -> usize {
    encode_utf8(v).len() as usize
}

/// The string value of a literal operand, if it is a string literal.
spec fn operand_string(op: MirOperand) -> Option<Seq<char>> {
    match op {
        MirOperand::Const(MirConstant::Literal(text)) => string_literal_value_spec(text@),
        _ => None,
    }
}

spec fn operand_covered(t: StringTable, op: MirOperand) -> bool {
    operand_string(op) matches Some(v) ==> table_covers(t, v)
}

/// Every string literal of the value, and every text segment of a log format in first
/// argument position, is in the table or does not fit.
spec fn rvalue_covered(t: StringTable, value: MirRvalue) -> bool {
    match value {
        MirRvalue::Use(op) => operand_covered(t, op),
        MirRvalue::ProjectVariant { source, .. } => operand_covered(t, source),
        MirRvalue::Call { callee, args } => {
            &&& operand_covered(t, callee)
            &&& forall|i: int| 0 <= i < args@.len() ==> operand_covered(t, #[trigger] args@[i])
            &&& (args@.len() > 0 && operand_string(args@[0]) is Some) ==> forall|k: int|
                0 <= k < segments_from(operand_string(args@[0])->Some_0, 0).len() ==> table_covers(
                    t,
                    #[trigger] segments_from(operand_string(args@[0])->Some_0, 0)[k],
                )
        },
        MirRvalue::Binary { left, right, .. } => operand_covered(t, left) && operand_covered(t, right),
        MirRvalue::AggregateVariant { fields, .. } => forall|i: int|
            0 <= i < fields@.len() ==> operand_covered(t, #[trigger] fields@[i]),
    }
}

/// Every string literal of the terminator and of its match patterns is in the table or does not
/// fit.
spec fn terminator_covered(t: StringTable, terminator: MirTerminator) -> bool {
    match terminator {
        MirTerminator::Goto { .. } => true,
        MirTerminator::Return { value, .. } => value matches Some(v) ==> operand_covered(t, v),
        MirTerminator::Branch { condition, .. } => operand_covered(t, condition),
        MirTerminator::Match { scrutinee, targets, .. } => {
            &&& operand_covered(t, scrutinee)
            &&& forall|i: int|
                0 <= i < targets@.len() ==> ((#[trigger] targets@[i]).pattern matches MirBranchPattern::Literal(
                    text,
                ) && string_literal_value_spec(text@) is Some) ==> table_covers(
                    t,
                    string_literal_value_spec(targets@[i].pattern->Literal_0@)->Some_0,
                )
        },
    }
}

/// Every string literal of every function of the package is in the table or does not fit.
spec fn package_covered(t: StringTable, package: MirPackage) -> bool {
    forall|f: int, b: int|
        0 <= f < package.functions@.len() && 0 <= b < package.functions@[f].blocks@.len()
            ==> block_covered(t, #[trigger] package.functions@[f].blocks@[b])
}

proof fn lemma_covers_grows(t1: StringTable, t2: StringTable, v: Seq<char>)
    requires
        table_grows(t2, t1),
        table_covers(t1, v),
    ensures
        table_covers(t2, v),
{
    if table_holds(t1, v) {
        let k = choose|k: int| 0 <= k < t1.entries@.len() && (#[trigger] t1.entries@[k]).text@ == v;
        assert(t2.entries@[k] == t1.entries@[k]);
    }
}

proof fn lemma_grows_trans(t1: StringTable, t2: StringTable, t3: StringTable)
    requires
        table_grows(t2, t1),
        table_grows(t3, t2),
    ensures
        table_grows(t3, t1),
{
    assert forall|k: int| 0 <= k < t1.entries@.len() implies #[trigger] t3.entries@[k] == t1.entries@[k] by {
        assert(t3.entries@[k] == t2.entries@[k]);
    }
}

/// The block's statements and terminator are covered.
spec fn block_covered(t: StringTable, block: BasicBlock) -> bool {
    &&& forall|s: int|
        0 <= s < block.statements@.len() ==> (#[trigger] block.statements@[s] matches MirStatement::Assign {
            value,
            ..
        } ==> rvalue_covered(t, value))
    &&& block.terminator matches Some(term) ==> terminator_covered(t, term)
}

/// The handle of text `v`: its length and the offset of its first entry, or offset 0 when it is
/// not in the table; texts of 2 GiB or more get handle 0.
spec fn handle_of(t: StringTable, v: Seq<char>) -> i64 {
    if text_len(v) >= 2147483648 {
        0
    } else if table_holds(t, v) {
        handle_bits(text_len(v), t.entries@[choose|k: int| first_entry_at(t, v, k)].offset)
    } else {
        handle_bits(text_len(v), 0)
    }
}

/// The handle of a string literal's value, or 0 for text that is no string literal.
spec fn literal_handle(t: StringTable, text: Seq<char>) -> i64 {
    match string_literal_value_spec(text) {
        Some(v) => handle_of(t, v),
        None => 0,
    }
}

proof fn lemma_first_entry_unique(t: StringTable, v: Seq<char>, a: int, b: int)
    requires
        first_entry_at(t, v, a),
        first_entry_at(t, v, b),
    ensures
        a == b,
{
    if a < b {
        assert(t.entries@[a].text@ != v);
    } else if b < a {
        assert(t.entries@[b].text@ != v);
    }
}

/// The 64-bit string handle: the byte length in the high word, the offset in the low word.
spec fn handle_bits(len: usize, offset: u32) -> i64 {
    (((len as u64) << 32u64) | (offset as u64)) as i64
}

proof fn lemma_operand_covered_grows(t1: StringTable, t2: StringTable, op: MirOperand)
    requires
        table_grows(t2, t1),
        operand_covered(t1, op),
    ensures
        operand_covered(t2, op),
{
    if let Some(v) = operand_string(op) {
        lemma_covers_grows(t1, t2, v);
    }
}

proof fn lemma_rvalue_covered_grows(t1: StringTable, t2: StringTable, value: MirRvalue)
    requires
        table_grows(t2, t1),
        rvalue_covered(t1, value),
    ensures
        rvalue_covered(t2, value),
{
    match value {
        MirRvalue::Use(op) => lemma_operand_covered_grows(t1, t2, op),
        MirRvalue::ProjectVariant { source, .. } => lemma_operand_covered_grows(t1, t2, source),
        MirRvalue::Call { callee, args } => {
            lemma_operand_covered_grows(t1, t2, callee);
            assert forall|i: int| 0 <= i < args@.len() implies operand_covered(t2, #[trigger] args@[i]) by {
                lemma_operand_covered_grows(t1, t2, args@[i]);
            }
            if args@.len() > 0 && operand_string(args@[0]) is Some {
                let v = operand_string(args@[0])->Some_0;
                assert forall|k: int| 0 <= k < segments_from(v, 0).len() implies table_covers(
                    t2,
                    #[trigger] segments_from(v, 0)[k],
                ) by {
                    lemma_covers_grows(t1, t2, segments_from(v, 0)[k]);
                }
            }
        },
        MirRvalue::Binary { left, right, .. } => {
            lemma_operand_covered_grows(t1, t2, left);
            lemma_operand_covered_grows(t1, t2, right);
        },
        MirRvalue::AggregateVariant { fields, .. } => {
            assert forall|i: int| 0 <= i < fields@.len() implies operand_covered(t2, #[trigger] fields@[i]) by {
                lemma_operand_covered_grows(t1, t2, fields@[i]);
            }
        },
    }
}

proof fn lemma_block_covered_grows(t1: StringTable, t2: StringTable, block: BasicBlock)
    requires
        table_grows(t2, t1),
        block_covered(t1, block),
    ensures
        block_covered(t2, block),
{
    assert forall|s: int|
        0 <= s < block.statements@.len() implies (#[trigger] block.statements@[s] matches MirStatement::Assign {
            value,
            ..
        } ==> rvalue_covered(t2, value)) by {
        let MirStatement::Assign { value, .. } = block.statements@[s];
        lemma_rvalue_covered_grows(t1, t2, value);
    }
    if let Some(term) = block.terminator {
        match term {
            MirTerminator::Goto { .. } => {},
            MirTerminator::Return { value, .. } => {
                if let Some(v) = value {
                    lemma_operand_covered_grows(t1, t2, v);
                }
            },
            MirTerminator::Branch { condition, .. } => lemma_operand_covered_grows(t1, t2, condition),
            MirTerminator::Match { scrutinee, targets, .. } => {
                lemma_operand_covered_grows(t1, t2, scrutinee);
                assert forall|i: int|
                    0 <= i < targets@.len() && ((#[trigger] targets@[i]).pattern matches MirBranchPattern::Literal(
                        text,
                    ) && string_literal_value_spec(text@) is Some) implies table_covers(
                    t2,
                    string_literal_value_spec(targets@[i].pattern->Literal_0@)->Some_0,
                ) by {
                    lemma_covers_grows(t1, t2, string_literal_value_spec(targets@[i].pattern->Literal_0@)->Some_0);
                }
            },
        }
    }
}

impl StringTable {
    spec fn wf(&self) -> bool {
        self.used <= STRING_DATA_LIMIT
    }

    fn new(package: &MirPackage) -> (r: Self)
        ensures
            r.wf(),
            package_covered(r, *package),
    {
        let mut table = StringTable { entries: Vec::new(), used: 0 };
        let mut f: usize = 0;
        while f < package.functions.len()
            invariant
                table.wf(),
                f <= package.functions@.len(),
                forall|ff: int, bb: int|
                    0 <= ff < f && 0 <= bb < package.functions@[ff].blocks@.len() ==> block_covered(
                        table,
                        #[trigger] package.functions@[ff].blocks@[bb],
                    ),
            decreases package.functions@.len() - f,
        {
            let function = &package.functions[f];
            let ghost at_function = table;
            let mut b: usize = 0;
            while b < function.blocks.len()
                invariant
                    table.wf(),
                    f < package.functions@.len(),
                    *function == package.functions@[f as int],
                    b <= function.blocks@.len(),
                    table_grows(table, at_function),
                    forall|ff: int, bb: int|
                        0 <= ff < f && 0 <= bb < package.functions@[ff].blocks@.len() ==> block_covered(
                            at_function,
                            #[trigger] package.functions@[ff].blocks@[bb],
                        ),
                    forall|bb: int| 0 <= bb < b ==> block_covered(table, #[trigger] function.blocks@[bb]),
                decreases function.blocks@.len() - b,
            {
                let block = &function.blocks[b];
                let ghost at_block = table;
                let mut s: usize = 0;
                while s < block.statements.len()
                    invariant
                        table.wf(),
                        s <= block.statements@.len(),
                        table_grows(table, at_block),
                        forall|ss: int|
                            0 <= ss < s ==> (#[trigger] block.statements@[ss] matches MirStatement::Assign {
                                value,
                                ..
                            } ==> rvalue_covered(table, value)),
                    decreases block.statements@.len() - s,
                {
                    let ghost before = table;
                    match &block.statements[s] {
                        MirStatement::Assign { value, .. } => table.visit_rvalue(value),
                    }
                    proof {
                        assert forall|ss: int|
                            0 <= ss <= s implies (#[trigger] block.statements@[ss] matches MirStatement::Assign {
                                value,
                                ..
                            } ==> rvalue_covered(table, value)) by {
                            if ss < s {
                                let MirStatement::Assign { value, .. } = block.statements@[ss];
                                lemma_rvalue_covered_grows(before, table, value);
                            }
                        }
                        lemma_grows_trans(at_block, before, table);
                    }
                    s = s + 1;
                }
                let ghost before_term = table;
                if let Some(terminator) = &block.terminator {
                    table.visit_terminator(terminator);
                }
                proof {
                    assert forall|ss: int|
                        0 <= ss < block.statements@.len() implies (#[trigger] block.statements@[ss] matches MirStatement::Assign {
                            value,
                            ..
                        } ==> rvalue_covered(table, value)) by {
                        let MirStatement::Assign { value, .. } = block.statements@[ss];
                        lemma_rvalue_covered_grows(before_term, table, value);
                    }
                    lemma_grows_trans(at_block, before_term, table);
                    assert(block_covered(table, *block));
                    assert forall|bb: int| 0 <= bb <= b implies block_covered(table, #[trigger] function.blocks@[bb]) by {
                        if bb < b {
                            lemma_block_covered_grows(at_block, table, function.blocks@[bb]);
                        }
                    }
                    lemma_grows_trans(at_function, at_block, table);
                }
                b = b + 1;
            }
            proof {
                assert forall|ff: int, bb: int|
                    0 <= ff <= f && 0 <= bb < package.functions@[ff].blocks@.len() implies block_covered(
                        table,
                        #[trigger] package.functions@[ff].blocks@[bb],
                    ) by {
                    if ff < f {
                        lemma_block_covered_grows(at_function, table, package.functions@[ff].blocks@[bb]);
                    }
                }
            }
            f = f + 1;
        }
        table
    }

    fn offset_for_text(&self, text: &str) -> (r: Option<u32>)
        ensures
            r matches Some(o) ==> exists|k: int| #[trigger] first_entry_at(*self, text@, k) && self.entries@[k].offset == o,
            r is None <==> !table_holds(*self, text@),
    {
        let mut i: usize = 0;
        while i < self.entries.len()
            invariant
                i <= self.entries@.len(),
                forall|j: int| 0 <= j < i ==> (#[trigger] self.entries@[j]).text@ != text@,
            decreases self.entries@.len() - i,
        {
            if str_eq(self.entries[i].text.as_str(), text) {
                proof {
                    assert(first_entry_at(*self, text@, i as int));
                }
                return Some(self.entries[i].offset);
            }
            i = i + 1;
        }
        None
    }

    fn intern_text(&mut self, value: &str)
        requires
            old(self).wf(),
        ensures
            final(self).wf(),
            table_grows(*final(self), *old(self)),
            table_covers(*final(self), value@),
            table_holds(*old(self), value@) ==> *final(self) == *old(self),
            !table_holds(*old(self), value@) && text_len(value@) >= STRING_DATA_LIMIT - old(self).used
                ==> *final(self) == *old(self),
            !table_holds(*old(self), value@) && text_len(value@) < STRING_DATA_LIMIT - old(self).used
                ==> {
                &&& final(self).entries@.drop_last() == old(self).entries@
                &&& final(self).entries@.len() == old(self).entries@.len() + 1
                &&& final(self).entries@.last().text@ == value@
                &&& final(self).entries@.last().offset == STRING_DATA_BASE + old(self).used
                &&& final(self).used == old(self).used + text_len(value@) + 1
            },
    {
        if self.offset_for_text(value).is_some() {
            return;
        }
        let len = value.len();
        proof {
            assert(value.spec_bytes() == encode_utf8(value@));
            assert(len == text_len(value@));
        }
        if len >= STRING_DATA_LIMIT - self.used {
            return;
        }
        let offset = STRING_DATA_BASE + (self.used as u32);
        self.entries.push(StringEntry { text: owned(value), offset });
        self.used = self.used + len + 1;
        proof {
            assert(self.entries@.drop_last() =~= old(self).entries@);
            let k = (self.entries@.len() - 1) as int;
            assert(self.entries@[k].text@ == value@);
        }
    }

    fn intern_literal(&mut self, text: &str)
        requires
            old(self).wf(),
        ensures
            final(self).wf(),
            table_grows(*final(self), *old(self)),
            string_literal_value_spec(text@) matches Some(v) ==> table_covers(*final(self), v),
            string_literal_value_spec(text@) is None ==> *final(self) == *old(self),
    {
        if let Some(value) = string_literal_value(text) {
            self.intern_text(value.as_str());
        }
    }

    fn handle_for_text(&self, text: &str) -> (r: i64)
        ensures
            text.len() >= 2147483648 ==> r == 0,
            text.len() < 2147483648 ==> {
                ||| !table_holds(*self, text@) && r == handle_bits(text.len(), 0)
                ||| exists|k: int| #[trigger] first_entry_at(*self, text@, k) && r == handle_bits(
                    text.len(),
                    self.entries@[k].offset,
                )
            },
            r == handle_of(*self, text@),
    {
        proof {
            assert(text.spec_bytes() == encode_utf8(text@));
        }
        let offset: u64 = match self.offset_for_text(text) {
            Some(o) => o as u64,
            None => 0u64,
        };
        let len = text.len();
        proof {
            if table_holds(*self, text@) {
                let k = choose|k: int| #[trigger] first_entry_at(*self, text@, k) && offset == self.entries@[k].offset as u64;
                let c = choose|k: int| first_entry_at(*self, text@, k);
                lemma_first_entry_unique(*self, text@, k, c);
            }
        }
        if len < 2147483648usize {
            let high: u64 = (len as u64) << 32u64;
            (high | offset) as i64
        } else {
            0i64
        }
    }

    fn handle_for_literal(&self, text: &str) -> (r: i64)
        ensures
            r == literal_handle(*self, text@),
    {
        match string_literal_value(text) {
            Some(value) => self.handle_for_text(value.as_str()),
            None => 0i64,
        }
    }

    fn visit_operand(&mut self, operand: &MirOperand)
        requires
            old(self).wf(),
        ensures
            final(self).wf(),
            table_grows(*final(self), *old(self)),
            operand_covered(*final(self), *operand),
    {
        if let MirOperand::Const(MirConstant::Literal(text)) = operand {
            self.intern_literal(text.as_str());
        }
    }

    fn visit_terminator(&mut self, terminator: &MirTerminator)
        requires
            old(self).wf(),
        ensures
            final(self).wf(),
            table_grows(*final(self), *old(self)),
            terminator_covered(*final(self), *terminator),
    {
        match terminator {
            MirTerminator::Goto { .. } => {},
            MirTerminator::Return { value, .. } => {
                if let Some(v) = value {
                    self.visit_operand(v);
                }
            },
            MirTerminator::Branch { condition, .. } => self.visit_operand(condition),
            MirTerminator::Match { scrutinee, targets, .. } => {
                self.visit_operand(scrutinee);
                let ghost start = *self;
                let mut i: usize = 0;
                while i < targets.len()
                    invariant
                        self.wf(),
                        i <= targets@.len(),
                        table_grows(*self, start),
                        table_grows(start, *old(self)),
                        operand_covered(start, *scrutinee),
                        forall|j: int|
                            0 <= j < i ==> ((#[trigger] targets@[j]).pattern matches MirBranchPattern::Literal(
                                text,
                            ) && string_literal_value_spec(text@) is Some) ==> table_covers(
                                *self,
                                string_literal_value_spec(targets@[j].pattern->Literal_0@)->Some_0,
                            ),
                    decreases targets@.len() - i,
                {
                    let ghost before = *self;
                    if let MirBranchPattern::Literal(text) = &targets[i].pattern {
                        self.intern_literal(text.as_str());
                    }
                    proof {
                        assert forall|j: int|
                            0 <= j <= i implies ((#[trigger] targets@[j]).pattern matches MirBranchPattern::Literal(
                                text,
                            ) && string_literal_value_spec(text@) is Some) ==> table_covers(
                                *self,
                                string_literal_value_spec(targets@[j].pattern->Literal_0@)->Some_0,
                            ) by {
                            if j < i && (targets@[j].pattern matches MirBranchPattern::Literal(text)
                                && string_literal_value_spec(text@) is Some) {
                                lemma_covers_grows(
                                    before,
                                    *self,
                                    string_literal_value_spec(targets@[j].pattern->Literal_0@)->Some_0,
                                );
                            }
                        }
                        lemma_grows_trans(start, before, *self);
                    }
                    i = i + 1;
                }
                proof {
                    lemma_operand_covered_grows(start, *self, *scrutinee);
                    lemma_grows_trans(*old(self), start, *self);
                }
            },
        }
    }

    fn visit_rvalue(&mut self, value: &MirRvalue)
        requires
            old(self).wf(),
        ensures
            final(self).wf(),
            table_grows(*final(self), *old(self)),
            rvalue_covered(*final(self), *value),
    {
        match value {
            MirRvalue::Use(operand) => self.visit_operand(operand),
            MirRvalue::ProjectVariant { source, .. } => self.visit_operand(source),
            MirRvalue::Call { callee, args } => {
                let ghost t0 = *self;
                if args.len() > 0 {
                    if let Some(format) = log_format_of(&args[0]) {
                        let mut k: usize = 0;
                        while k < format.segments.len()
                            invariant
                                self.wf(),
                                k <= format.segments@.len(),
                                table_grows(*self, t0),
                                forall|j: int| 0 <= j < k ==> table_covers(*self, (#[trigger] format.segments@[j])@),
                            decreases format.segments@.len() - k,
                        {
                            let ghost before = *self;
                            self.intern_text(format.segments[k].as_str());
                            proof {
                                assert forall|j: int| 0 <= j <= k implies table_covers(*self, (#[trigger] format.segments@[j])@) by {
                                    if j < k {
                                        lemma_covers_grows(before, *self, format.segments@[j]@);
                                    }
                                }
                                lemma_grows_trans(t0, before, *self);
                            }
                            k = k + 1;
                        }
                        proof {
                            let v = operand_string(args@[0])->Some_0;
                            assert(string_views(format.segments@).len() == format.segments@.len());
                            assert forall|j: int| 0 <= j < segments_from(v, 0).len() implies table_covers(
                                *self,
                                #[trigger] segments_from(v, 0)[j],
                            ) by {
                                assert(string_views(format.segments@)[j] == format.segments@[j]@);
                            }
                        }
                    }
                }
                let ghost t1 = *self;
                self.visit_operand(callee);
                let ghost t2 = *self;
                let mut i: usize = 0;
                while i < args.len()
                    invariant
                        self.wf(),
                        i <= args@.len(),
                        table_grows(*self, t2),
                        forall|j: int| 0 <= j < i ==> operand_covered(*self, #[trigger] args@[j]),
                    decreases args@.len() - i,
                {
                    let ghost before = *self;
                    self.visit_operand(&args[i]);
                    proof {
                        assert forall|j: int| 0 <= j <= i implies operand_covered(*self, #[trigger] args@[j]) by {
                            if j < i {
                                lemma_operand_covered_grows(before, *self, args@[j]);
                            }
                        }
                        lemma_grows_trans(t2, before, *self);
                    }
                    i = i + 1;
                }
                proof {
                    lemma_operand_covered_grows(t2, *self, *callee);
                    lemma_grows_trans(t1, t2, *self);
                    lemma_grows_trans(t0, t1, *self);
                    if args@.len() > 0 && operand_string(args@[0]) is Some {
                        let v = operand_string(args@[0])->Some_0;
                        assert forall|k: int| 0 <= k < segments_from(v, 0).len() implies table_covers(
                            *self,
                            #[trigger] segments_from(v, 0)[k],
                        ) by {
                            lemma_covers_grows(t1, *self, segments_from(v, 0)[k]);
                        }
                    }
                }
            },
            MirRvalue::Binary { left, right, .. } => {
                let ghost t0 = *self;
                self.visit_operand(left);
                let ghost t1 = *self;
                self.visit_operand(right);
                proof {
                    lemma_operand_covered_grows(t1, *self, *left);
                    lemma_grows_trans(t0, t1, *self);
                }
            },
            MirRvalue::AggregateVariant { fields, .. } => {
                let ghost t0 = *self;
                let mut i: usize = 0;
                while i < fields.len()
                    invariant
                        self.wf(),
                        i <= fields@.len(),
                        table_grows(*self, t0),
                        forall|j: int| 0 <= j < i ==> operand_covered(*self, #[trigger] fields@[j]),
                    decreases fields@.len() - i,
                {
                    let ghost before = *self;
                    self.visit_operand(&fields[i]);
                    proof {
                        assert forall|j: int| 0 <= j <= i implies operand_covered(*self, #[trigger] fields@[j]) by {
                            if j < i {
                                lemma_operand_covered_grows(before, *self, fields@[j]);
                            }
                        }
                        lemma_grows_trans(t0, before, *self);
                    }
                    i = i + 1;
                }
            },
        }
    }
}

/// Wasm local slots of one function: parameters first, then the other locals, then the
/// dispatcher's own locals.
struct FunctionLayout {
    slots: Vec<u32>,
    ret: u32,
    bb: u32,
    done: u32,
    matched: u32,
    string_scratch: u32,
}

fn bump(n: u32) -> (r: u32) {
    if n < 4294967295u32 {
        n + 1
    } else {
        n
    }
}

impl FunctionLayout {
    fn new(function: &MirFunction) -> (r: Self)
        ensures
            r.slots@.len() == function.locals@.len(),
    {
        let n = function.locals.len();
        let mut slots: Vec<u32> = Vec::new();
        let mut i: usize = 0;
        while i < n
            invariant
                i <= n,
                slots@.len() == i,
                n == function.locals@.len(),
            decreases n - i,
        {
            slots.push(0u32);
            i = i + 1;
        }
        let mut next: u32 = 0;
        let mut p: usize = 0;
        while p < n
            invariant
                slots@.len() == n,
                n == function.locals@.len(),
            decreases n - p,
        {
            if function.locals[p].kind == MirLocalKind::Param {
                let id = function.locals[p].id.get();
                if id < n {
                    slots.set(id, next);
                }
                next = bump(next);
            }
            p = p + 1;
        }
        let mut q: usize = 0;
        while q < n
            invariant
                slots@.len() == n,
                n == function.locals@.len(),
            decreases n - q,
        {
            if function.locals[q].kind != MirLocalKind::Param {
                let id = function.locals[q].id.get();
                if id < n {
                    slots.set(id, next);
                }
                next = bump(next);
            }
            q = q + 1;
        }
        let ret = next;
        let bb = bump(ret);
        let done = bump(bb);
        let matched = bump(done);
        let string_scratch = bump(matched);
        FunctionLayout { slots, ret, bb, done, matched, string_scratch }
    }

    fn local(&self, local: MirLocalId) -> (r: u32)
        requires
            local@ < self.slots@.len(),
        ensures
            r == self.slots@[local@ as int],
    {
        self.slots[local.get()]
    }
}

/// The value types of the first `n` locals that are not parameters, in order.
spec fn body_local_types(package: MirPackage, function: MirFunction, n: int) -> Seq<WasmValueType>
    decreases n,
{
    if n <= 0 {
        Seq::empty()
    } else if function.locals@[n - 1].kind != MirLocalKind::Param {
        body_local_types(package, function, n - 1).push(
            local_type_of(package, function, function.locals@[n - 1]),
        )
    } else {
        body_local_types(package, function, n - 1)
    }
}

fn declared_local_groups(function: &MirFunction, package: &MirPackage) -> (r: Vec<WasmValueType>)
    ensures
        r@ == body_local_types(*package, *function, function.locals@.len() as int) + seq![
            match kind_at(*package, function.return_type) {
                Some(MirTypeKind::Unit) | Some(MirTypeKind::Error) | None => WasmValueType::I32,
                Some(_) => value_type_of(*package, function.return_type),
            },
            WasmValueType::I32,
            WasmValueType::I32,
            WasmValueType::I32,
            WasmValueType::I64,
        ],
{
    let mut locals: Vec<WasmValueType> = Vec::new();
    let mut i: usize = 0;
    while i < function.locals.len()
        invariant
            i <= function.locals@.len(),
            locals@ == body_local_types(*package, *function, i as int),
        decreases function.locals@.len() - i,
    {
        if function.locals[i].kind != MirLocalKind::Param {
            locals.push(local_value_type(package, function, &function.locals[i]));
        }
        i = i + 1;
    }
    match function_return_value_type(package, function) {
        Some(t) => locals.push(t),
        None => locals.push(WasmValueType::I32),
    }
    locals.push(WasmValueType::I32);
    locals.push(WasmValueType::I32);
    locals.push(WasmValueType::I32);
    locals.push(WasmValueType::I64);
    proof {
        assert(locals@ =~= body_local_types(*package, *function, function.locals@.len() as int) + seq![
            match kind_at(*package, function.return_type) {
                Some(MirTypeKind::Unit) | Some(MirTypeKind::Error) | None => WasmValueType::I32,
                Some(_) => value_type_of(*package, function.return_type),
            },
            WasmValueType::I32,
            WasmValueType::I32,
            WasmValueType::I32,
            WasmValueType::I64,
        ]);
    }
    locals
}

// ---------------------------------------------------------------------------
// WAT writer
// ---------------------------------------------------------------------------

/// The fixed start of every WAT module: the host imports and the exported memory.
pub open spec fn wat_prelude() -> Seq<char> {
    "(module"@ + "\n"@ + "  (import \""@ + WASM_HOST_MODULE@ + "\" \""@ + WASM_IMPORT_PANIC@
        + "\" (func $__maodie_panic (param i32 i32)))"@ + "\n"@ + "  (import \""@
        + WASM_HOST_MODULE@ + "\" \""@ + WASM_IMPORT_DEBUG_STRING@
        + "\" (func $__maodie_debug_string (param i32 i32)))"@ + "\n"@ + "  (import \""@
        + WASM_HOST_MODULE@ + "\" \""@ + WASM_IMPORT_DEBUG_I32@
        + "\" (func $__maodie_debug_i32 (param i32)))"@ + "\n"@ + "  (import \""@
        + WASM_HOST_MODULE@ + "\" \""@ + WASM_IMPORT_DEBUG_BOOL@
        + "\" (func $__maodie_debug_bool (param i32)))"@ + "\n"@ + "  (import \""@
        + WASM_HOST_MODULE@ + "\" \""@ + WASM_IMPORT_DEBUG_LOG_END@
        + "\" (func $__maodie_debug_log_end))"@ + "\n"@ + "  (memory (export \""@
        + WASM_MEMORY_EXPORT@ + "\") 1)"@ + "\n"@
}

fn push_import_line(out: &mut String, field: &str, signature: &str)
    ensures
        final(out)@ == old(out)@ + "  (import \""@ + WASM_HOST_MODULE@ + "\" \""@ + field@ + signature@
            + "\n"@,
{
    out.append("  (import \"");
    out.append(WASM_HOST_MODULE);
    out.append("\" \"");
    out.append(field);
    out.append(signature);
    out.append("\n");
}

fn wat_prelude_string() -> (r: String)
    ensures
        r@ == wat_prelude(),
{
    let mut out = owned("(module");
    out.append("\n");
    push_import_line(&mut out, WASM_IMPORT_PANIC, "\" (func $__maodie_panic (param i32 i32)))");
    push_import_line(&mut out, WASM_IMPORT_DEBUG_STRING, "\" (func $__maodie_debug_string (param i32 i32)))");
    push_import_line(&mut out, WASM_IMPORT_DEBUG_I32, "\" (func $__maodie_debug_i32 (param i32)))");
    push_import_line(&mut out, WASM_IMPORT_DEBUG_BOOL, "\" (func $__maodie_debug_bool (param i32)))");
    push_import_line(&mut out, WASM_IMPORT_DEBUG_LOG_END, "\" (func $__maodie_debug_log_end))");
    out.append("  (memory (export \"");
    out.append(WASM_MEMORY_EXPORT);
    out.append("\") 1)");
    out.append("\n");
    proof {
        assert(out@ =~= wat_prelude());
    }
    out
}

struct WatWriter<'a> {
    package: &'a MirPackage,
    layout: &'a Layout,
    strings: &'a StringTable,
    diagnostics: Vec<WasmDiagnostic>,
    output: String,
}

/// The WAT constant of a literal operand.
spec fn wat_literal(t: StringTable, text: Seq<char>) -> Seq<char> {
    match int_literal(text) {
        Some(v) => "(i32.const "@ + signed_decimal(v as int) + ")"@,
        None => match bool_literal(text) {
            Some(b) => if b {
                "(i32.const 1)"@
            } else {
                "(i32.const 0)"@
            },
            None => if has_prefix(text, "string("@) {
                "(i64.const "@ + signed_decimal(literal_handle(t, text) as int) + ")"@
            } else {
                "(i32.const 0)"@
            },
        },
    }
}

/// The tag a variant symbol carries in the layout.
spec fn layout_tag(layout: Layout, symbol: SymbolId) -> u32 {
    match lookup(layout.variant_tags@, symbol) {
        Some(t) => t,
        None => clamped(symbol@ as nat) as u32,
    }
}

/// The WAT expression of an operand.
spec fn wat_operand(t: StringTable, layout: Layout, operand: MirOperand) -> Seq<char> {
    match operand {
        MirOperand::Copy(MirPlace::Local(local)) => "(local.get $v"@ + decimal(local@ as nat) + ")"@,
        MirOperand::Const(MirConstant::Unit) | MirOperand::Function(_) => "(i32.const 0)"@,
        MirOperand::Const(MirConstant::Literal(text)) => wat_literal(t, text@),
        MirOperand::Variant(symbol) => "(i32.const "@ + decimal(layout_tag(layout, symbol) as nat) + ")"@,
    }
}

/// The WAT call that logs a text of the string table.
spec fn wat_text_chunk(t: StringTable, v: Seq<char>) -> Seq<char> {
    "(call $__maodie_debug_string (i32.const "@ + decimal(
        (if table_holds(t, v) {
            t.entries@[choose|k: int| first_entry_at(t, v, k)].offset
        } else {
            0u32
        }) as nat,
    ) + ") (i32.const "@ + decimal(text_len(v) as nat) + "))"@
}

/// The WAT instructions that log a string operand.
spec fn wat_string_chunk(t: StringTable, layout: Layout, operand: MirOperand) -> Seq<char> {
    match operand_string(operand) {
        Some(v) => wat_text_chunk(t, v),
        None => "(local.set $__string "@ + wat_operand(t, layout, operand)
            + ") (call $__maodie_debug_string (i32.wrap_i64 (local.get $__string)) (i32.wrap_i64 (i64.shr_u (local.get $__string) (i64.const 32))))"@,
    }
}

/// The WAT value of an enum variant: its tag, or its first field shifted above the tag.
spec fn wat_variant(t: StringTable, layout: Layout, variant: SymbolId, fields: Seq<MirOperand>) -> Seq<char> {
    if fields.len() == 0 {
        "(i32.const "@ + decimal(layout_tag(layout, variant) as nat) + ")"@
    } else {
        "(i32.or (i32.shl "@ + wat_operand(t, layout, fields[0]) + " (i32.const 8)) (i32.const "@ + decimal(
            layout_tag(layout, variant) as nat,
        ) + "))"@
    }
}

/// The WAT instruction of a supported binary operator.
pub open spec fn wat_binary_instr(op: Seq<char>) -> Option<Seq<char>> {
    if op == "+"@ {
        Some("i32.add"@)
    } else if op == "-"@ {
        Some("i32.sub"@)
    } else if op == "*"@ {
        Some("i32.mul"@)
    } else if op == "/"@ {
        Some("i32.div_s"@)
    } else if op == "<"@ {
        Some("i32.lt_s"@)
    } else if op == ">"@ {
        Some("i32.gt_s"@)
    } else {
        None
    }
}

/// The WAT call that logs one argument by its type.
spec fn wat_value_chunk(t: StringTable, layout: Layout, package: MirPackage, function: MirFunction, operand: MirOperand) -> Seq<char> {
    if operand_type_of(package, operand, function) == WasmValueType::I64 {
        wat_string_chunk(t, layout, operand)
    } else if (match operand {
        MirOperand::Const(MirConstant::Literal(text)) => has_prefix(text@, "bool("@),
        MirOperand::Copy(MirPlace::Local(local)) => first_local_has_kind(package, function, local, MirTypeKind::Bool),
        _ => false,
    }) {
        "(call $__maodie_debug_bool "@ + wat_operand(t, layout, operand) + ")"@
    } else {
        "(call $__maodie_debug_i32 "@ + wat_operand(t, layout, operand) + ")"@
    }
}

/// The logging calls of the first `n` segments of a format: each nonempty text segment, then the
/// argument that follows it, when there is one.
spec fn wat_log_chunks(
    t: StringTable,
    layout: Layout,
    package: MirPackage,
    function: MirFunction,
    segments: Seq<Seq<char>>,
    args: Seq<MirOperand>,
    n: int,
) -> Seq<Seq<char>>
    decreases n,
{
    if n <= 0 {
        Seq::empty()
    } else {
        wat_log_chunks(t, layout, package, function, segments, args, n - 1) + (if text_len(segments[n - 1]) > 0 {
            seq![wat_text_chunk(t, segments[n - 1])]
        } else {
            Seq::empty()
        }) + (if n < args.len() {
            seq![wat_value_chunk(t, layout, package, function, args[n])]
        } else {
            Seq::empty()
        })
    }
}

/// The WAT expression of a `core.log` call.
spec fn wat_log_call(t: StringTable, layout: Layout, package: MirPackage, function: MirFunction, args: Seq<MirOperand>) -> Seq<char> {
    if args.len() == 0 {
        "(i32.const 0)"@
    } else if args.len() == 1 {
        "(block (result i32) "@ + wat_string_chunk(t, layout, args[0]) + " (call $__maodie_debug_log_end) (i32.const 0))"@
    } else if operand_string(args[0]) is None {
        "(i32.const 0)"@
    } else {
        "(block (result i32) "@ + join(
            wat_log_chunks(
                t,
                layout,
                package,
                function,
                segments_from(operand_string(args[0])->Some_0, 0),
                args,
                segments_from(operand_string(args[0])->Some_0, 0).len() as int,
            ).push("(call $__maodie_debug_log_end)"@),
            " "@,
        ) + " (i32.const 0))"@
    }
}

/// The WAT expression of an rvalue.
spec fn wat_rvalue(t: StringTable, layout: Layout, package: MirPackage, function: MirFunction, value: MirRvalue) -> Seq<char> {
    match value {
        MirRvalue::Use(operand) => wat_operand(t, layout, operand),
        MirRvalue::Call { callee: MirOperand::Variant(symbol), args } => wat_variant(t, layout, symbol, args@),
        MirRvalue::Call { callee: MirOperand::Function(symbol), args } => if exists|k: int|
            #[trigger] first_symbol_at(package, symbol, k) && is_core_log_entry(package.symbols@[k]) {
            wat_log_call(t, layout, package, function, args@)
        } else {
            "(call $"@ + (if exists|k: int| #[trigger] first_symbol_at(package, symbol, k) {
                wat_ident(last_segment(package.symbols@[choose|k: int| first_symbol_at(package, symbol, k)].path@))
            } else {
                "unknown"@
            }) + " "@ + join(args@.map_values(|a: MirOperand| wat_operand(t, layout, a)), " "@) + ")"@
        },
        MirRvalue::Call { .. } => "(i32.const 0)"@,
        MirRvalue::Binary { op, left, right } => match wat_binary_instr(op@) {
            Some(instr) => "("@ + instr + " "@ + wat_operand(t, layout, left) + " "@ + wat_operand(t, layout, right)
                + ")"@,
            None => "(i32.const 0)"@,
        },
        MirRvalue::AggregateVariant { variant, fields } => wat_variant(t, layout, variant, fields@),
        MirRvalue::ProjectVariant { source, .. } => "(i32.shr_s "@ + wat_operand(t, layout, source) + " (i32.const 8))"@,
    }
}

/// The WAT lines of the first `n` statements of a block.
spec fn wat_statements(t: StringTable, layout: Layout, package: MirPackage, function: MirFunction, statements: Seq<MirStatement>, n: int) -> Seq<char>
    decreases n,
{
    if n <= 0 {
        Seq::empty()
    } else {
        wat_statements(t, layout, package, function, statements, n - 1) + match statements[n - 1] {
            MirStatement::Assign { place: MirPlace::Local(local), value, .. } => "            (local.set $v"@ + decimal(
                local@ as nat,
            ) + " "@ + wat_rvalue(t, layout, package, function, value) + ")"@ + "\n"@,
        }
    }
}

/// The WAT line that moves the dispatcher to block `target`.
spec fn bb_line(target: BasicBlockId) -> Seq<char> {
    "                (local.set $__bb (i32.const "@ + decimal(target@ as nat) + "))"@ + "\n"@
}

/// The WAT test of one match pattern against the scrutinee's text.
spec fn wat_pattern_test(t: StringTable, layout: Layout, scrutinee: Seq<char>, pattern: MirBranchPattern) -> Seq<char> {
    match pattern {
        MirBranchPattern::Wildcard => "(i32.const 1)"@,
        MirBranchPattern::Literal(text) => "(i32.eq "@ + scrutinee + " "@ + wat_literal(t, text@) + ")"@,
        MirBranchPattern::Variant(symbol) => "(i32.eq (i32.and "@ + scrutinee + " (i32.const 255)) (i32.const "@
            + decimal(layout_tag(layout, symbol) as nat) + "))"@,
    }
}

/// The WAT lines of one match arm: when nothing matched yet and the pattern matches, go to its
/// block and mark the match.
spec fn wat_match_arm(t: StringTable, layout: Layout, scrutinee: Seq<char>, target: MirMatchTarget) -> Seq<char> {
    "            (if (i32.and (i32.eqz (local.get $__matched)) "@ + wat_pattern_test(t, layout, scrutinee, target.pattern)
        + ")"@ + "\n"@ + "              (then"@ + "\n"@ + bb_line(target.target)
        + "                (local.set $__matched (i32.const 1))"@ + "\n"@ + "              )"@ + "\n"@
        + "            )"@ + "\n"@
}

/// The WAT lines of the first `n` match arms.
spec fn wat_match_arms(t: StringTable, layout: Layout, scrutinee: Seq<char>, targets: Seq<MirMatchTarget>, n: int) -> Seq<char>
    decreases n,
{
    if n <= 0 {
        Seq::empty()
    } else {
        wat_match_arms(t, layout, scrutinee, targets, n - 1) + wat_match_arm(t, layout, scrutinee, targets[n - 1])
    }
}

/// The WAT lines of a terminator inside the block dispatcher.
spec fn wat_terminator(t: StringTable, layout: Layout, terminator: MirTerminator) -> Seq<char> {
    match terminator {
        MirTerminator::Goto { target, .. } => bb_line(target),
        MirTerminator::Return { value, .. } => (match value {
            Some(v) => "            (local.set $__ret "@ + wat_operand(t, layout, v) + ")"@ + "\n"@,
            None => Seq::empty(),
        }) + "            (local.set $__done (i32.const 1))"@ + "\n"@,
        MirTerminator::Branch { condition, then_target, else_target, .. } => "            (if "@ + wat_operand(
            t,
            layout,
            condition,
        ) + "\n"@ + "              (then"@ + "\n"@ + bb_line(then_target) + "              )"@ + "\n"@
            + "              (else"@ + "\n"@ + bb_line(else_target) + "              )"@ + "\n"@ + "            )"@
            + "\n"@,
        MirTerminator::Match { scrutinee, targets, .. } => "            (local.set $__matched (i32.const 0))"@
            + "\n"@ + wat_match_arms(t, layout, wat_operand(t, layout, scrutinee), targets@, targets@.len() as int)
            + "            (if (i32.eqz (local.get $__matched)) (then (unreachable)))"@ + "\n"@,
    }
}

impl<'a> WatWriter<'a> {
    fn line(&mut self, line: &str)
        ensures
            final(self).output@ == old(self).output@ + line@ + "\n"@,
            final(self).package == old(self).package,
            final(self).layout == old(self).layout,
            final(self).strings == old(self).strings,
            final(self).diagnostics@ == old(self).diagnostics@,
    {
        self.output.append(line);
        self.output.append("\n");
    }

    #[verifier::spinoff_prover]
    #[verifier::rlimit(60)]
    fn finish(self) -> (r: (String, Vec<WasmDiagnostic>))
        ensures
            r.0@.len() >= wat_prelude().len(),
            r.0@.take(wat_prelude().len() as int) == wat_prelude(),
            exports_all(r.0@, self.package.functions@),
            r.0@ == wat_prelude() + self.output@ + wat_data_lines(
                self.strings.entries@,
                self.strings.entries@.len() as int,
            ) + wat_functions(
                *self.strings,
                *self.layout,
                *self.package,
                self.package.functions@,
                self.package.functions@.len() as int,
            ) + ")"@ + "\n"@,
    {
        let ghost t = *self.strings;
        let ghost lay = *self.layout;
        let ghost out0 = self.output@;
        let prelude = wat_prelude_string();
        let ghost pkg = self.package;
        let mut w = self;
        let strings = w.strings;
        let mut i: usize = 0;
        while i < strings.entries.len()
            invariant
                w.strings == strings,
                w.package == pkg,
                t == *strings,
                lay == *w.layout,
                i <= strings.entries@.len(),
                w.output@ == out0 + wat_data_lines(strings.entries@, i as int),
            decreases strings.entries@.len() - i,
        {
            let entry = &strings.entries[i];
            let mut l = owned("  (data (i32.const ");
            push_u32(&mut l, entry.offset);
            l.append(") \"");
            let escaped = escape_wat_text(entry.text.as_str());
            l.append(escaped.as_str());
            l.append("\")");
            w.line(l.as_str());
            proof {
                assert(w.output@ =~= out0 + wat_data_lines(strings.entries@, i + 1));
            }
            i = i + 1;
        }
        let ghost out1 = w.output@;
        let package = w.package;
        let mut f: usize = 0;
        let ghost mut pos: Seq<int> = Seq::empty();
        while f < package.functions.len()
            invariant
                w.package == package,
                w.strings == strings,
                t == *strings,
                lay == *w.layout,
                w.output@ == out1 + wat_functions(t, lay, *package, package.functions@, f as int),
                f <= package.functions@.len(),
                pos.len() == f,
                forall|i: int|
                    0 <= i < f ==> occurs_at(
                        w.output@,
                        export_line(package.functions@[i]),
                        #[trigger] pos[i],
                    ),
            decreases package.functions@.len() - f,
        {
            let ghost before = w.output@;
            w.write_function(&package.functions[f]);
            proof {
                assert(w.output@ =~= out1 + wat_functions(t, lay, *package, package.functions@, f + 1));
                assert forall|i: int| 0 <= i < f implies occurs_at(
                    w.output@,
                    export_line(package.functions@[i]),
                    #[trigger] pos[i],
                ) by {
                    let l = export_line(package.functions@[i]);
                    assert(w.output@.subrange(pos[i], pos[i] + l.len()) =~= before.subrange(
                        pos[i],
                        pos[i] + l.len(),
                    ));
                }
                let np = w.output@.len() - export_line(package.functions@[f as int]).len();
                let old_pos = pos;
                pos = pos.push(np);
                assert forall|i: int| 0 <= i < f + 1 implies occurs_at(
                    w.output@,
                    export_line(package.functions@[i]),
                    #[trigger] pos[i],
                ) by {
                    if i < f {
                        assert(pos[i] == old_pos[i]);
                    }
                }
            }
            f = f + 1;
        }
        let ghost before_close = w.output@;
        w.line(")");
        let mut text = prelude;
        let ghost head = text@;
        text.append(w.output.as_str());
        proof {
            assert(text@.take(head.len() as int) =~= head);
            assert forall|i: int| 0 <= i < package.functions@.len() implies exports(
                text@,
                #[trigger] package.functions@[i],
            ) by {
                let l = export_line(package.functions@[i]);
                assert(occurs_at(before_close, l, pos[i]));
                assert(text@.subrange(head.len() + pos[i], head.len() + pos[i] + l.len())
                    =~= before_close.subrange(pos[i], pos[i] + l.len()));
                assert(occurs_at(text@, l, head.len() + pos[i]));
            }
            assert(exports_all(text@, package.functions@));
            assert(text@ =~= wat_prelude() + out0 + wat_data_lines(strings.entries@, strings.entries@.len() as int)
                + wat_functions(t, lay, *package, package.functions@, package.functions@.len() as int) + ")"@
                + "\n"@);
        }
        (text, w.diagnostics)
    }

    fn write_function(&mut self, function: &MirFunction)
        ensures
            grows(old(self).output@, final(self).output@),
            final(self).output@.len() >= old(self).output@.len() + export_line(*function).len(),
            occurs_at(
                final(self).output@,
                export_line(*function),
                final(self).output@.len() - export_line(*function).len(),
            ),
            final(self).output@ == old(self).output@ + wat_function(
                *old(self).strings,
                *old(self).layout,
                *old(self).package,
                *function,
            ),
            final(self).package == old(self).package,
            final(self).layout == old(self).layout,
            final(self).strings == old(self).strings,
    {
        let ghost t = *self.strings;
        let ghost lay = *self.layout;
        let ghost pkg = *self.package;
        let ghost f = *function;
        let ghost base = self.output@;
        self.write_function_head(function);
        let ghost a = self.output@;
        self.write_local_lines(function);
        let ghost b = self.output@;
        self.write_frame(function);
        let ghost c = self.output@;
        self.write_dispatch(function);
        let ghost d = self.output@;
        self.write_function_tail(function);
        proof {
            lemma_wat_function_parts(t, lay, pkg, f, base, a, b, c, d, self.output@);
        }
    }

    fn write_function_head(&mut self, function: &MirFunction)
        ensures
            final(self).output@ == old(self).output@ + wat_func_head(*old(self).package, *function) + "\n"@,
            final(self).package == old(self).package,
            final(self).layout == old(self).layout,
            final(self).strings == old(self).strings,
    {
        let package = self.package;
        let ghost pkg = *package;
        let mut params = String::new();
        let mut i: usize = 0;
        while i < function.locals.len()
            invariant
                i <= function.locals@.len(),
                pkg == *package,
                params@ == wat_params(pkg, *function, i as int),
            decreases function.locals@.len() - i,
        {
            let local = &function.locals[i];
            if local.kind == MirLocalKind::Param {
                params.append(" (param $v");
                push_decimal(&mut params, local.id.get());
                params.append(" ");
                params.append(wasm_value_type(package, local.ty).wat());
                params.append(")");
            }
            proof {
                assert(params@ =~= wat_params(pkg, *function, i + 1));
            }
            i = i + 1;
        }
        let name = wasm_name(function.name.as_str());
        let mut head = owned("  (func $");
        head.append(name.as_str());
        head.append(params.as_str());
        if let Some(t) = function_return_value_type(package, function) {
            head.append(" (result ");
            head.append(t.wat());
            head.append(")");
        }
        proof {
            assert(head@ =~= wat_func_head(pkg, *function));
        }
        self.line(head.as_str());
    }

    fn write_local_lines(&mut self, function: &MirFunction)
        ensures
            final(self).output@ == old(self).output@ + wat_local_lines(
                *old(self).package,
                *function,
                function.locals@.len() as int,
            ),
            final(self).package == old(self).package,
            final(self).layout == old(self).layout,
            final(self).strings == old(self).strings,
    {
        let package = self.package;
        let ghost pkg = *package;
        let ghost start = self.output@;
        let mut k: usize = 0;
        while k < function.locals.len()
            invariant
                self.package == package,
                pkg == *package,
                self.layout == old(self).layout,
                self.strings == old(self).strings,
                k <= function.locals@.len(),
                self.output@ == start + wat_local_lines(pkg, *function, k as int),
            decreases function.locals@.len() - k,
        {
            let local = &function.locals[k];
            if local.kind != MirLocalKind::Param {
                let mut l = owned("    (local $v");
                push_decimal(&mut l, local.id.get());
                l.append(" ");
                l.append(local_value_type(package, function, local).wat());
                l.append(")");
                self.line(l.as_str());
            }
            proof {
                assert(self.output@ =~= start + wat_local_lines(pkg, *function, k + 1));
            }
            k = k + 1;
        }
    }

    fn write_frame(&mut self, function: &MirFunction)
        ensures
            final(self).output@ == old(self).output@ + wat_func_frame(*old(self).package, *function),
            final(self).package == old(self).package,
            final(self).layout == old(self).layout,
            final(self).strings == old(self).strings,
    {
        let package = self.package;
        let ret_type = match function_return_value_type(package, function) {
            Some(t) => t,
            None => WasmValueType::I32,
        };
        let mut ret_line = owned("    (local $__ret ");
        ret_line.append(ret_type.wat());
        ret_line.append(")");
        self.line(ret_line.as_str());
        self.line("    (local $__bb i32)");
        self.line("    (local $__done i32)");
        self.line("    (local $__matched i32)");
        self.line("    (local $__string i64)");
        self.line("    (block $__exit");
        self.line("      (loop $__dispatch");
        self.line("        (br_if $__exit (local.get $__done))");
        proof {
            assert(self.output@ =~= old(self).output@ + wat_func_frame(*old(self).package, *function));
        }
    }

    fn write_dispatch(&mut self, function: &MirFunction)
        ensures
            final(self).output@ == old(self).output@ + wat_dispatch(
                *old(self).strings,
                *old(self).layout,
                *old(self).package,
                *function,
                function.blocks@,
                function.blocks@.len() as int,
            ),
            final(self).package == old(self).package,
            final(self).layout == old(self).layout,
            final(self).strings == old(self).strings,
    {
        let ghost t = *self.strings;
        let ghost lay = *self.layout;
        let ghost pkg = *self.package;
        let ghost pre = self.output@;
        let mut b: usize = 0;
        while b < function.blocks.len()
            invariant
                t == *self.strings,
                lay == *self.layout,
                pkg == *self.package,
                self.package == old(self).package,
                self.layout == old(self).layout,
                self.strings == old(self).strings,
                b <= function.blocks@.len(),
                self.output@ == pre + wat_dispatch(t, lay, pkg, *function, function.blocks@, b as int),
            decreases function.blocks@.len() - b,
        {
            let block = &function.blocks[b];
            let ghost before = self.output@;
            let mut l = owned("        (if (i32.eq (local.get $__bb) (i32.const ");
            push_decimal(&mut l, block.id.get());
            l.append("))");
            self.line(l.as_str());
            self.line("          (then");
            self.write_block(block, function);
            self.line("            (br $__dispatch)");
            self.line("          )");
            self.line("        )");
            proof {
                assert(self.output@ =~= before + wat_dispatch_arm(t, lay, pkg, *function, *block));
                assert(self.output@ =~= pre + wat_dispatch(t, lay, pkg, *function, function.blocks@, b + 1));
            }
            b = b + 1;
        }
    }

    fn write_function_tail(&mut self, function: &MirFunction)
        ensures
            final(self).output@ == old(self).output@ + wat_func_tail(*old(self).package, *function),
            final(self).package == old(self).package,
            final(self).layout == old(self).layout,
            final(self).strings == old(self).strings,
    {
        let package = self.package;
        self.line("        (br $__dispatch)");
        self.line("      )");
        self.line("    )");
        if function_result(package, function) {
            self.line("    (return (local.get $__ret))");
        } else {
            self.line("    (return)");
        }
        self.line("  )");
        let name = wasm_name(function.name.as_str());
        let mut export = owned("  (export \"");
        export.append(function.name.as_str());
        export.append("\" (func $");
        export.append(name.as_str());
        export.append("))");
        let ghost before = self.output@;
        self.line(export.as_str());
        proof {
            reveal_strlit("\n");
            assert(export@ + "\n"@ =~= export_line(*function));
            assert(self.output@ =~= before + export_line(*function));
            assert(self.output@ =~= old(self).output@ + wat_func_tail(*old(self).package, *function));
        }
    }

    fn write_block(&mut self, block: &BasicBlock, function: &MirFunction)
        ensures
            grows(old(self).output@, final(self).output@),
            final(self).package == old(self).package,
            final(self).layout == old(self).layout,
            final(self).strings == old(self).strings,
            final(self).output@ == old(self).output@ + wat_statements(
                *old(self).strings,
                *old(self).layout,
                *old(self).package,
                *function,
                block.statements@,
                block.statements@.len() as int,
            ) + match block.terminator {
                Some(t) => wat_terminator(*old(self).strings, *old(self).layout, t),
                None => "            (unreachable)"@ + "\n"@,
            },
    {
        let ghost t = *self.strings;
        let ghost lay = *self.layout;
        let ghost pkg = *self.package;
        let mut s: usize = 0;
        while s < block.statements.len()
            invariant
                self.package == old(self).package,
                self.layout == old(self).layout,
                self.strings == old(self).strings,
                t == *self.strings,
                lay == *self.layout,
                pkg == *self.package,
                s <= block.statements@.len(),
                grows(old(self).output@, self.output@),
                self.output@ == old(self).output@ + wat_statements(t, lay, pkg, *function, block.statements@, s as int),
            decreases block.statements@.len() - s,
        {
            let ghost before = self.output@;
            match &block.statements[s] {
                MirStatement::Assign { place: MirPlace::Local(local), value, .. } => {
                    let v = self.rvalue(value, function);
                    let mut l = owned("            (local.set $v");
                    push_decimal(&mut l, local.get());
                    l.append(" ");
                    l.append(v.as_str());
                    l.append(")");
                    self.line(l.as_str());
                },
            }
            proof {
                assert(self.output@ =~= old(self).output@ + wat_statements(t, lay, pkg, *function, block.statements@, s + 1));
            }
            s = s + 1;
        }
        let ghost mid = self.output@;
        match &block.terminator {
            Some(term) => self.write_terminator(term, function),
            None => self.line("            (unreachable)"),
        }
        proof {
            assert(self.output@ =~= mid + match block.terminator {
                Some(term) => wat_terminator(t, lay, term),
                None => "            (unreachable)"@ + "\n"@,
            });
        }
    }

    fn set_bb(&mut self, target: BasicBlockId)
        ensures
            grows(old(self).output@, final(self).output@),
            final(self).package == old(self).package,
            final(self).layout == old(self).layout,
            final(self).strings == old(self).strings,
            final(self).output@ == old(self).output@ + bb_line(target),
            final(self).diagnostics@ == old(self).diagnostics@,
    {
        let mut l = owned("                (local.set $__bb (i32.const ");
        push_decimal(&mut l, target.get());
        l.append("))");
        self.line(l.as_str());
        proof {
            assert(self.output@ =~= old(self).output@ + bb_line(target));
        }
    }

    #[verifier::spinoff_prover]
    #[verifier::rlimit(40)]
    fn write_terminator(&mut self, terminator: &MirTerminator, function: &MirFunction)
        ensures
            grows(old(self).output@, final(self).output@),
            final(self).package == old(self).package,
            final(self).layout == old(self).layout,
            final(self).strings == old(self).strings,
            final(self).output@ == old(self).output@ + wat_terminator(*old(self).strings, *old(self).layout, *terminator),
            final(self).diagnostics@ == old(self).diagnostics@,
    {
        let ghost t = *self.strings;
        let ghost lay = *self.layout;
        let ghost start = self.output@;
        match terminator {
            MirTerminator::Goto { target, .. } => self.set_bb(*target),
            MirTerminator::Return { value, .. } => {
                if let Some(v) = value {
                    let o = self.operand(v);
                    let mut l = owned("            (local.set $__ret ");
                    l.append(o.as_str());
                    l.append(")");
                    self.line(l.as_str());
                }
                let ghost mid = self.output@;
                self.line("            (local.set $__done (i32.const 1))");
                proof {
                    assert(mid =~= start + (match *value {
                        Some(v) => "            (local.set $__ret "@ + wat_operand(t, lay, v) + ")"@ + "\n"@,
                        None => Seq::empty(),
                    }));
                    assert(self.output@ =~= start + wat_terminator(t, lay, *terminator));
                }
            },
            MirTerminator::Branch { condition, then_target, else_target, .. } => {
                let c = self.operand(condition);
                let mut l = owned("            (if ");
                l.append(c.as_str());
                self.line(l.as_str());
                self.line("              (then");
                self.set_bb(*then_target);
                self.line("              )");
                self.line("              (else");
                self.set_bb(*else_target);
                self.line("              )");
                self.line("            )");
                proof {
                    assert(self.output@ =~= start + wat_terminator(t, lay, *terminator));
                }
            },
            MirTerminator::Match { scrutinee, targets, .. } => {
                self.line("            (local.set $__matched (i32.const 0))");
                let scrutinee_text = self.operand(scrutinee);
                let ghost head = self.output@;
                let mut i: usize = 0;
                while i < targets.len()
                    invariant
                        self.package == old(self).package,
                        self.layout == old(self).layout,
                        self.strings == old(self).strings,
                        self.diagnostics@ == old(self).diagnostics@,
                        t == *self.strings,
                        lay == *self.layout,
                        i <= targets@.len(),
                        grows(old(self).output@, head),
                        self.output@ == head + wat_match_arms(t, lay, scrutinee_text@, targets@, i as int),
                    decreases targets@.len() - i,
                {
                    let target = &targets[i];
                    let ghost before = self.output@;
                    let condition = match &target.pattern {
                        MirBranchPattern::Wildcard => owned("(i32.const 1)"),
                        MirBranchPattern::Literal(text) => {
                            let mut c = owned("(i32.eq ");
                            c.append(scrutinee_text.as_str());
                            c.append(" ");
                            let lit = self.literal(text.as_str());
                            c.append(lit.as_str());
                            c.append(")");
                            c
                        },
                        MirBranchPattern::Variant(symbol) => {
                            let mut c = owned("(i32.eq (i32.and ");
                            c.append(scrutinee_text.as_str());
                            c.append(" (i32.const 255)) (i32.const ");
                            push_u32(&mut c, self.layout.variant_tag(*symbol));
                            c.append("))");
                            c
                        },
                    };
                    proof {
                        assert(condition@ =~= wat_pattern_test(t, lay, scrutinee_text@, target.pattern));
                    }
                    let mut l = owned("            (if (i32.and (i32.eqz (local.get $__matched)) ");
                    l.append(condition.as_str());
                    l.append(")");
                    self.line(l.as_str());
                    self.line("              (then");
                    self.set_bb(target.target);
                    self.line("                (local.set $__matched (i32.const 1))");
                    self.line("              )");
                    self.line("            )");
                    proof {
                        assert(self.output@ =~= before + wat_match_arm(t, lay, scrutinee_text@, *target));
                        assert(targets@[i as int] == *target);
                        assert(self.output@ =~= head + wat_match_arms(t, lay, scrutinee_text@, targets@, i + 1));
                    }
                    i = i + 1;
                }
                self.line("            (if (i32.eqz (local.get $__matched)) (then (unreachable)))");
                proof {
                    assert(self.output@ =~= start + wat_terminator(t, lay, *terminator));
                }
            },
        }
    }

    fn rvalue(&mut self, value: &MirRvalue, function: &MirFunction) -> (r: String)
        ensures
            final(self).output@ == old(self).output@,
            final(self).package == old(self).package,
            final(self).layout == old(self).layout,
            final(self).strings == old(self).strings,
            r@ == wat_rvalue(*old(self).strings, *old(self).layout, *old(self).package, *function, *value),
            match *value {
                MirRvalue::Use(operand) => r@ == wat_operand(*old(self).strings, *old(self).layout, operand),
                MirRvalue::Call { callee: MirOperand::Variant(symbol), args } => r@ == wat_variant(
                    *old(self).strings,
                    *old(self).layout,
                    symbol,
                    args@,
                ),
                MirRvalue::Call { callee: MirOperand::Function(symbol), args } => (exists|k: int|
                    #[trigger] first_symbol_at(*old(self).package, symbol, k) && is_core_log_entry(
                        old(self).package.symbols@[k],
                    )) || r@ == "(call $"@ + (if exists|k: int| #[trigger] first_symbol_at(*old(self).package, symbol, k) {
                    wat_ident(last_segment(old(self).package.symbols@[choose|k: int| first_symbol_at(*old(self).package, symbol, k)].path@))
                } else {
                    "unknown"@
                }) + " "@ + join(
                    args@.map_values(|a: MirOperand| wat_operand(*old(self).strings, *old(self).layout, a)),
                    " "@,
                ) + ")"@,
                MirRvalue::Call { .. } => r@ == "(i32.const 0)"@,
                MirRvalue::Binary { op, left, right } => r@ == match wat_binary_instr(op@) {
                    Some(instr) => "("@ + instr + " "@ + wat_operand(*old(self).strings, *old(self).layout, left)
                        + " "@ + wat_operand(*old(self).strings, *old(self).layout, right) + ")"@,
                    None => "(i32.const 0)"@,
                },
                MirRvalue::AggregateVariant { variant, fields } => r@ == wat_variant(
                    *old(self).strings,
                    *old(self).layout,
                    variant,
                    fields@,
                ),
                MirRvalue::ProjectVariant { source, .. } => r@ == "(i32.shr_s "@ + wat_operand(
                    *old(self).strings,
                    *old(self).layout,
                    source,
                ) + " (i32.const 8))"@,
            },
    {
        match value {
            MirRvalue::Use(operand) => self.operand(operand),
            MirRvalue::Call { callee, args } => match callee {
                MirOperand::Function(symbol) => {
                    if is_core_log_symbol(self.package, *symbol) {
                        return self.log_call(args, function);
                    }
                    let mut parts: Vec<String> = Vec::new();
                    let mut i: usize = 0;
                    while i < args.len()
                        invariant
                            i <= args@.len(),
                            string_views(parts@) == args@.take(i as int).map_values(
                                |a: MirOperand| wat_operand(*self.strings, *self.layout, a),
                            ),
                        decreases args@.len() - i,
                    {
                        let p = self.operand(&args[i]);
                        let ghost before = parts@;
                        parts.push(p);
                        proof {
                            assert(string_views(parts@) =~= string_views(before).push(p@));
                            assert(args@.take(i + 1).map_values(
                                |a: MirOperand| wat_operand(*self.strings, *self.layout, a),
                            ) =~= args@.take(i as int).map_values(
                                |a: MirOperand| wat_operand(*self.strings, *self.layout, a),
                            ).push(p@));
                        }
                        i = i + 1;
                    }
                    proof {
                        assert(args@.take(i as int) =~= args@);
                    }
                    let name = match find_symbol(self.package, *symbol) {
                        Some(s) => {
                            proof {
                                let k = choose|k: int| #[trigger] first_symbol_at(*self.package, *symbol, k) && *s == self.package.symbols@[k];
                                let c = choose|k: int| first_symbol_at(*self.package, *symbol, k);
                                lemma_first_symbol_unique(*self.package, *symbol, k, c);
                            }
                            wasm_name(s.name())
                        },
                        None => owned("unknown"),
                    };
                    let mut s = owned("(call $");
                    s.append(name.as_str());
                    s.append(" ");
                    crate::text::push_join(&mut s, &parts, " ");
                    s.append(")");
                    s
                },
                MirOperand::Variant(symbol) => self.aggregate_variant(*symbol, args),
                _ => {
                    self.diagnostics.push(wasm_note("unsupported dynamic call lowered to i32.const 0"));
                    owned("(i32.const 0)")
                },
            },
            MirRvalue::Binary { op, left, right } => {
                let instr = if str_eq(op, "+") {
                    "i32.add"
                } else if str_eq(op, "-") {
                    "i32.sub"
                } else if str_eq(op, "*") {
                    "i32.mul"
                } else if str_eq(op, "/") {
                    "i32.div_s"
                } else if str_eq(op, "<") {
                    "i32.lt_s"
                } else if str_eq(op, ">") {
                    "i32.gt_s"
                } else {
                    let mut message = owned("unsupported binary operator `");
                    message.append(op);
                    message.append("` lowered to i32.const 0");
                    self.diagnostics.push(wasm_note(message.as_str()));
                    return owned("(i32.const 0)");
                };
                let mut s = owned("(");
                s.append(instr);
                s.append(" ");
                let l = self.operand(left);
                s.append(l.as_str());
                s.append(" ");
                let r = self.operand(right);
                s.append(r.as_str());
                s.append(")");
                s
            },
            MirRvalue::AggregateVariant { variant, fields } => self.aggregate_variant(*variant, fields),
            MirRvalue::ProjectVariant { source, .. } => {
                let mut s = owned("(i32.shr_s ");
                let src = self.operand(source);
                s.append(src.as_str());
                s.append(" (i32.const 8))");
                s
            },
        }
    }

    fn aggregate_variant(&mut self, variant: SymbolId, fields: &Vec<MirOperand>) -> (r: String)
        ensures
            final(self).output@ == old(self).output@,
            final(self).package == old(self).package,
            final(self).layout == old(self).layout,
            final(self).strings == old(self).strings,
            r@ == wat_variant(*old(self).strings, *old(self).layout, variant, fields@),
            fields@.len() > 1 ==> final(self).diagnostics@ == old(self).diagnostics@.push(final(self).diagnostics@.last())
                && final(self).diagnostics@.last().message@ == "multi-field enum variant lowered using only field 0 in v1"@,
            fields@.len() <= 1 ==> final(self).diagnostics@ == old(self).diagnostics@,
    {
        let tag = self.layout.variant_tag(variant);
        if fields.len() == 0 {
            let mut s = owned("(i32.const ");
            push_u32(&mut s, tag);
            s.append(")");
            return s;
        }
        if fields.len() > 1 {
            self.diagnostics.push(wasm_note("multi-field enum variant lowered using only field 0 in v1"));
        }
        let mut s = owned("(i32.or (i32.shl ");
        let f = self.operand(&fields[0]);
        s.append(f.as_str());
        s.append(" (i32.const 8)) (i32.const ");
        push_u32(&mut s, tag);
        s.append("))");
        s
    }

    fn operand(&self, operand: &MirOperand) -> (r: String)
        ensures
            r@ == wat_operand(*self.strings, *self.layout, *operand),
    {
        proof {
            reveal_strlit("(local.get $v");
            reveal_strlit(")");
            reveal_strlit("(i32.const 0)");
            reveal_strlit("(i32.const ");
        }
        match operand {
            MirOperand::Copy(MirPlace::Local(local)) => {
                let mut s = owned("(local.get $v");
                push_decimal(&mut s, local.get());
                s.append(")");
                s
            },
            MirOperand::Const(MirConstant::Unit) | MirOperand::Function(_) => owned("(i32.const 0)"),
            MirOperand::Const(MirConstant::Literal(text)) => self.literal(text.as_str()),
            MirOperand::Variant(symbol) => {
                let mut s = owned("(i32.const ");
                push_u32(&mut s, self.layout.variant_tag(*symbol));
                s.append(")");
                s
            },
        }
    }

    fn literal(&self, text: &str) -> (r: String)
        ensures
            r@ == wat_literal(*self.strings, text@),
    {
        if let Some(value) = int_literal_value(text) {
            let mut s = owned("(i32.const ");
            push_i64(&mut s, value as i64);
            s.append(")");
            s
        } else if let Some(value) = bool_literal_value(text) {
            if value {
                owned("(i32.const 1)")
            } else {
                owned("(i32.const 0)")
            }
        } else if starts_with(text, "string(") {
            let mut s = owned("(i64.const ");
            push_i64(&mut s, self.strings.handle_for_literal(text));
            s.append(")");
            s
        } else {
            owned("(i32.const 0)")
        }
    }

    fn log_call(&mut self, args: &Vec<MirOperand>, function: &MirFunction) -> (r: String)
        ensures
            final(self).output@ == old(self).output@,
            final(self).package == old(self).package,
            final(self).layout == old(self).layout,
            final(self).strings == old(self).strings,
            args@.len() == 0 ==> r@ == "(i32.const 0)"@,
            args@.len() == 1 ==> r@ == "(block (result i32) "@ + wat_string_chunk(*old(self).strings, *old(self).layout, args@[0])
                + " (call $__maodie_debug_log_end) (i32.const 0))"@,
            args@.len() >= 2 && operand_string(args@[0]) is None ==> r@ == "(i32.const 0)"@,
            r@ == wat_log_call(*old(self).strings, *old(self).layout, *old(self).package, *function, args@),
            args@.len() >= 2 && operand_string(args@[0]) is Some ==> r@ == "(block (result i32) "@ + join(
                wat_log_chunks(
                    *old(self).strings,
                    *old(self).layout,
                    *old(self).package,
                    *function,
                    segments_from(operand_string(args@[0])->Some_0, 0),
                    args@,
                    segments_from(operand_string(args@[0])->Some_0, 0).len() as int,
                ).push("(call $__maodie_debug_log_end)"@),
                " "@,
            ) + " (i32.const 0))"@,
    {
        if args.len() == 0 {
            self.diagnostics.push(wasm_note("core.log call without message lowered to unit"));
            return owned("(i32.const 0)");
        }
        let message = &args[0];
        if args.len() == 1 {
            let chunk = self.log_string_chunk(message);
            let mut s = owned("(block (result i32) ");
            s.append(chunk.as_str());
            s.append(" (call $__maodie_debug_log_end) (i32.const 0))");
            return s;
        }
        let format = match log_format_of(message) {
            Some(f) => f,
            None => {
                self.diagnostics.push(
                    wasm_note("core.log formatted call without literal format lowered to unit"),
                );
                return owned("(i32.const 0)");
            },
        };
        let mut chunks: Vec<String> = Vec::new();
        let mut index: usize = 0;
        let ghost segs = string_views(format.segments@);
        while index < format.segments.len()
            invariant
                args@.len() >= 2,
                index <= format.segments@.len(),
                segs == string_views(format.segments@),
                string_views(chunks@) == wat_log_chunks(
                    *self.strings,
                    *self.layout,
                    *self.package,
                    *function,
                    segs,
                    args@,
                    index as int,
                ),
            decreases format.segments@.len() - index,
        {
            let segment = &format.segments[index];
            let ghost before = string_views(chunks@);
            let seg_text = segment.as_str();
            proof {
                assert(segs[index as int] == segment@);
                assert(seg_text.spec_bytes() == encode_utf8(segment@));
            }
            if seg_text.len() > 0 {
                let c = self.log_text_chunk(segment.as_str());
                chunks.push(c);
            }
            let ghost mid = string_views(chunks@);
            if index + 1 < args.len() {
                let c = self.log_value_chunk(&args[index + 1], function);
                chunks.push(c);
            }
            proof {
                assert(mid =~= before + (if text_len(segs[index as int]) > 0 {
                    seq![wat_text_chunk(*self.strings, segs[index as int])]
                } else {
                    Seq::empty()
                }));
                assert(string_views(chunks@) =~= mid + (if index + 1 < args@.len() {
                    seq![wat_value_chunk(*self.strings, *self.layout, *self.package, *function, args@[index + 1])]
                } else {
                    Seq::empty()
                }));
            }
            index = index + 1;
        }
        let ghost final_chunks = string_views(chunks@);
        chunks.push(owned("(call $__maodie_debug_log_end)"));
        proof {
            assert(string_views(chunks@) =~= final_chunks.push("(call $__maodie_debug_log_end)"@));
        }
        let mut s = owned("(block (result i32) ");
        crate::text::push_join(&mut s, &chunks, " ");
        s.append(" (i32.const 0))");
        s
    }

    fn log_text_chunk(&self, text: &str) -> (r: String)
        ensures
            r@ == wat_text_chunk(*self.strings, text@),
    {
        let pointer = match self.strings.offset_for_text(text) {
            Some(o) => o,
            None => 0u32,
        };
        proof {
            assert(text.spec_bytes() == encode_utf8(text@));
            if table_holds(*self.strings, text@) {
                let k = choose|k: int| #[trigger] first_entry_at(*self.strings, text@, k) && self.strings.entries@[k].offset == pointer;
                let c = choose|k: int| first_entry_at(*self.strings, text@, k);
                lemma_first_entry_unique(*self.strings, text@, k, c);
            }
        }
        let mut s = owned("(call $__maodie_debug_string (i32.const ");
        push_u32(&mut s, pointer);
        s.append(") (i32.const ");
        push_decimal(&mut s, text.len());
        s.append("))");
        s
    }

    fn log_string_chunk(&self, operand: &MirOperand) -> (r: String)
        ensures
            r@ == wat_string_chunk(*self.strings, *self.layout, *operand),
    {
        if let MirOperand::Const(MirConstant::Literal(text)) = operand {
            if let Some(value) = string_literal_value(text.as_str()) {
                return self.log_text_chunk(value.as_str());
            }
        }
        let value = self.operand(operand);
        let mut s = owned("(local.set $__string ");
        s.append(value.as_str());
        s.append(") (call $__maodie_debug_string (i32.wrap_i64 (local.get $__string)) (i32.wrap_i64 (i64.shr_u (local.get $__string) (i64.const 32))))");
        s
    }

    fn log_value_chunk(&self, operand: &MirOperand, function: &MirFunction) -> (r: String)
        ensures
            r@ == (if operand_type_of(*self.package, *operand, *function) == WasmValueType::I64 {
                wat_string_chunk(*self.strings, *self.layout, *operand)
            } else if (match *operand {
                MirOperand::Const(MirConstant::Literal(text)) => has_prefix(text@, "bool("@),
                MirOperand::Copy(MirPlace::Local(local)) => first_local_has_kind(*self.package, *function, local, MirTypeKind::Bool),
                _ => false,
            }) {
                "(call $__maodie_debug_bool "@ + wat_operand(*self.strings, *self.layout, *operand) + ")"@
            } else {
                "(call $__maodie_debug_i32 "@ + wat_operand(*self.strings, *self.layout, *operand) + ")"@
            }),
    {
        match operand_value_type(self.package, operand, function) {
            WasmValueType::I64 => self.log_string_chunk(operand),
            WasmValueType::I32 => {
                let value = self.operand(operand);
                let mut s = if operand_is_bool(self.package, operand, function) {
                    owned("(call $__maodie_debug_bool ")
                } else {
                    owned("(call $__maodie_debug_i32 ")
                };
                s.append(value.as_str());
                s.append(")");
                s
            },
        }
    }
}

// ---------------------------------------------------------------------------
// Binary writer
// ---------------------------------------------------------------------------

/// The framing of a module: the preamble, then the type section, then the import section of
/// the five host functions, then the rest.
pub open spec fn module_framing(wasm: Seq<u8>, type_payload: Seq<u8>, rest: Seq<u8>) -> bool {
    wasm == wasm_header() + section_bytes(1, type_payload) + section_bytes(2, import_payload())
        + rest
}

proof fn lemma_import_payload_small()
    ensures
        import_payload().len() <= u32::MAX,
        encode_utf8(WASM_IMPORT_PANIC@).len() <= u32::MAX,
        encode_utf8(WASM_IMPORT_DEBUG_STRING@).len() <= u32::MAX,
        encode_utf8(WASM_IMPORT_DEBUG_I32@).len() <= u32::MAX,
        encode_utf8(WASM_IMPORT_DEBUG_BOOL@).len() <= u32::MAX,
        encode_utf8(WASM_IMPORT_DEBUG_LOG_END@).len() <= u32::MAX,
{
    reveal_strlit("maodie");
    reveal_strlit("panic");
    reveal_strlit("debug_string");
    reveal_strlit("debug_i32");
    reveal_strlit("debug_bool");
    reveal_strlit("debug_log_end");
    crate::text::lemma_byte_len_is_encoding_len(WASM_HOST_MODULE@);
    crate::text::lemma_byte_len_is_encoding_len(WASM_IMPORT_PANIC@);
    crate::text::lemma_byte_len_is_encoding_len(WASM_IMPORT_DEBUG_STRING@);
    crate::text::lemma_byte_len_is_encoding_len(WASM_IMPORT_DEBUG_I32@);
    crate::text::lemma_byte_len_is_encoding_len(WASM_IMPORT_DEBUG_BOOL@);
    crate::text::lemma_byte_len_is_encoding_len(WASM_IMPORT_DEBUG_LOG_END@);
    lemma_uleb_small(5);
    lemma_uleb_small(0);
    lemma_uleb_small(1);
    lemma_uleb_small(2);
    crate::text::lemma_byte_len_le(WASM_HOST_MODULE@);
    crate::text::lemma_byte_len_le(WASM_IMPORT_PANIC@);
    crate::text::lemma_byte_len_le(WASM_IMPORT_DEBUG_STRING@);
    crate::text::lemma_byte_len_le(WASM_IMPORT_DEBUG_I32@);
    crate::text::lemma_byte_len_le(WASM_IMPORT_DEBUG_BOOL@);
    crate::text::lemma_byte_len_le(WASM_IMPORT_DEBUG_LOG_END@);
}

proof fn lemma_memory_export_small()
    ensures
        encode_utf8(WASM_MEMORY_EXPORT@).len() <= u32::MAX,
{
    reveal_strlit("memory");
    crate::text::lemma_byte_len_is_encoding_len(WASM_MEMORY_EXPORT@);
    crate::text::lemma_byte_len_le(WASM_MEMORY_EXPORT@);
}

proof fn lemma_uleb_small(v: nat)
    requires
        v < 128,
    ensures
        uleb(v) == seq![v as u8],
        uleb(v).len() == 1,
{
}

struct BinaryWriter<'a> {
    package: &'a MirPackage,
    layout: &'a Layout,
    strings: &'a StringTable,
    diagnostics: Vec<WasmDiagnostic>,
}

/// The `i32.const` instruction.
spec fn bin_i32(v: i32) -> Seq<u8> {
    seq![65u8] + sleb(v as i64)
}

/// The binary constant of a literal operand.
spec fn bin_literal(t: StringTable, text: Seq<char>) -> Seq<u8> {
    match int_literal(text) {
        Some(v) => bin_i32(v),
        None => match bool_literal(text) {
            Some(b) => bin_i32(if b { 1i32 } else { 0i32 }),
            None => if has_prefix(text, "string("@) {
                seq![66u8] + sleb(literal_handle(t, text))
            } else {
                bin_i32(0i32)
            },
        },
    }
}

/// The binary instruction that pushes an operand.
spec fn bin_operand(t: StringTable, layout: Layout, slots: Seq<u32>, operand: MirOperand) -> Seq<u8> {
    match operand {
        MirOperand::Copy(MirPlace::Local(local)) => seq![32u8] + uleb(slots[local@ as int] as nat),
        MirOperand::Const(MirConstant::Unit) | MirOperand::Function(_) => bin_i32(0i32),
        MirOperand::Const(MirConstant::Literal(text)) => bin_literal(t, text@),
        MirOperand::Variant(symbol) => bin_i32(u32_as_i32(layout_tag(layout, symbol))),
    }
}

/// The binary call that logs a text of the string table.
spec fn bin_text_chunk(t: StringTable, v: Seq<char>) -> Seq<u8> {
    bin_i32(u32_as_i32(if table_holds(t, v) {
        t.entries@[choose|k: int| first_entry_at(t, v, k)].offset
    } else {
        0u32
    })) + bin_i32(if text_len(v) <= i32::MAX { text_len(v) as i32 } else { i32::MAX }) + seq![16u8] + uleb(
        DEBUG_STRING_IMPORT_INDEX as nat,
    )
}

/// The binary instructions that log a string operand.
spec fn bin_string_chunk(t: StringTable, layout: Layout, slots: Seq<u32>, scratch: u32, operand: MirOperand) -> Seq<u8> {
    match operand_string(operand) {
        Some(v) => bin_text_chunk(t, v),
        None => bin_operand(t, layout, slots, operand) + seq![33u8] + uleb(scratch as nat) + seq![32u8] + uleb(
            scratch as nat,
        ) + seq![167u8] + seq![32u8] + uleb(scratch as nat) + seq![66u8] + sleb(32i64) + seq![136u8, 167u8]
            + seq![16u8] + uleb(DEBUG_STRING_IMPORT_INDEX as nat),
    }
}

/// The binary test of one match pattern.
spec fn bin_pattern_test(t: StringTable, layout: Layout, slots: Seq<u32>, scrutinee: MirOperand, pattern: MirBranchPattern) -> Seq<u8> {
    match pattern {
        MirBranchPattern::Wildcard => bin_i32(1i32),
        MirBranchPattern::Literal(text) => bin_operand(t, layout, slots, scrutinee) + bin_literal(t, text@) + seq![70u8],
        MirBranchPattern::Variant(symbol) => bin_operand(t, layout, slots, scrutinee) + bin_i32(VARIANT_TAG_MASK)
            + seq![113u8] + bin_i32(u32_as_i32(layout_tag(layout, symbol))) + seq![70u8],
    }
}

/// The binary value of an enum variant: its tag, or its first field shifted above the tag.
spec fn bin_variant(t: StringTable, layout: Layout, slots: Seq<u32>, variant: SymbolId, fields: Seq<MirOperand>) -> Seq<u8> {
    if fields.len() > 0 {
        bin_operand(t, layout, slots, fields[0]) + bin_i32(VARIANT_PAYLOAD_SHIFT) + seq![116u8] + bin_i32(
            u32_as_i32(layout_tag(layout, variant)),
        ) + seq![114u8]
    } else {
        bin_i32(u32_as_i32(layout_tag(layout, variant)))
    }
}

/// The binary call that logs one argument by its type.
spec fn bin_value_chunk(t: StringTable, layout: Layout, slots: Seq<u32>, scratch: u32, package: MirPackage, function: MirFunction, operand: MirOperand) -> Seq<u8> {
    if operand_type_of(package, operand, function) == WasmValueType::I64 {
        bin_string_chunk(t, layout, slots, scratch, operand)
    } else {
        bin_operand(t, layout, slots, operand) + seq![16u8] + uleb(
            (if (match operand {
                MirOperand::Const(MirConstant::Literal(text)) => has_prefix(text@, "bool("@),
                MirOperand::Copy(MirPlace::Local(local)) => first_local_has_kind(package, function, local, MirTypeKind::Bool),
                _ => false,
            }) {
                DEBUG_BOOL_IMPORT_INDEX
            } else {
                DEBUG_I32_IMPORT_INDEX
            }) as nat,
        )
    }
}

/// The binary logging calls of the first `n` segments of a format.
spec fn bin_log_chunks(
    t: StringTable,
    layout: Layout,
    slots: Seq<u32>,
    scratch: u32,
    package: MirPackage,
    function: MirFunction,
    segments: Seq<Seq<char>>,
    args: Seq<MirOperand>,
    n: int,
) -> Seq<u8>
    decreases n,
{
    if n <= 0 {
        Seq::empty()
    } else {
        bin_log_chunks(t, layout, slots, scratch, package, function, segments, args, n - 1) + (if text_len(
            segments[n - 1],
        ) > 0 {
            bin_text_chunk(t, segments[n - 1])
        } else {
            Seq::empty()
        }) + (if n < args.len() {
            bin_value_chunk(t, layout, slots, scratch, package, function, args[n])
        } else {
            Seq::empty()
        })
    }
}

/// The binary code of a `core.log` call.
spec fn bin_log_call(t: StringTable, layout: Layout, slots: Seq<u32>, scratch: u32, package: MirPackage, function: MirFunction, args: Seq<MirOperand>) -> Seq<u8> {
    if args.len() == 0 {
        bin_i32(0i32)
    } else if args.len() == 1 {
        bin_string_chunk(t, layout, slots, scratch, args[0]) + seq![16u8] + uleb(DEBUG_LOG_END_IMPORT_INDEX as nat)
            + bin_i32(0i32)
    } else if operand_string(args[0]) is None {
        bin_i32(0i32)
    } else {
        bin_log_chunks(
            t,
            layout,
            slots,
            scratch,
            package,
            function,
            segments_from(operand_string(args[0])->Some_0, 0),
            args,
            segments_from(operand_string(args[0])->Some_0, 0).len() as int,
        ) + seq![16u8] + uleb(DEBUG_LOG_END_IMPORT_INDEX as nat) + bin_i32(0i32)
    }
}

/// The binary operands of the first `n` arguments, in order.
spec fn bin_operands(t: StringTable, layout: Layout, slots: Seq<u32>, args: Seq<MirOperand>, n: int) -> Seq<u8>
    decreases n,
{
    if n <= 0 {
        Seq::empty()
    } else {
        bin_operands(t, layout, slots, args, n - 1) + bin_operand(t, layout, slots, args[n - 1])
    }
}

/// The opcode of a supported binary operator.
pub open spec fn bin_binary_opcode(op: Seq<char>) -> Option<u8> {
    if op == "+"@ {
        Some(106u8)
    } else if op == "-"@ {
        Some(107u8)
    } else if op == "*"@ {
        Some(108u8)
    } else if op == "/"@ {
        Some(109u8)
    } else if op == "<"@ {
        Some(72u8)
    } else if op == ">"@ {
        Some(74u8)
    } else {
        None
    }
}

/// The binary code of an rvalue.
spec fn bin_rvalue(t: StringTable, layout: Layout, slots: Seq<u32>, scratch: u32, package: MirPackage, function: MirFunction, value: MirRvalue) -> Seq<u8> {
    match value {
        MirRvalue::Use(operand) => bin_operand(t, layout, slots, operand),
        MirRvalue::Call { callee: MirOperand::Function(symbol), args } => if exists|k: int|
            #[trigger] first_symbol_at(package, symbol, k) && is_core_log_entry(package.symbols@[k]) {
            bin_log_call(t, layout, slots, scratch, package, function, args@)
        } else {
            bin_operands(t, layout, slots, args@, args@.len() as int) + match lookup(layout.function_indices@, symbol) {
                Some(index) => seq![16u8] + uleb(index as nat),
                None => bin_i32(0i32),
            }
        },
        MirRvalue::Call { callee: MirOperand::Variant(symbol), args } => bin_variant(t, layout, slots, symbol, args@),
        MirRvalue::Call { .. } => bin_i32(0i32),
        MirRvalue::Binary { op, left, right } => bin_operand(t, layout, slots, left) + bin_operand(t, layout, slots, right)
            + match bin_binary_opcode(op@) {
            Some(code) => seq![code],
            None => seq![26u8] + bin_i32(0i32),
        },
        MirRvalue::AggregateVariant { variant, fields } => bin_variant(t, layout, slots, variant, fields@),
        MirRvalue::ProjectVariant { source, .. } => bin_operand(t, layout, slots, source) + bin_i32(VARIANT_PAYLOAD_SHIFT)
            + seq![117u8],
    }
}

/// The binary instructions that move the dispatcher to block `target`.
spec fn bin_set_bb(target: BasicBlockId, fl: FunctionLayout) -> Seq<u8> {
    bin_i32(if target@ <= i32::MAX { target@ as i32 } else { i32::MAX }) + seq![33u8] + uleb(fl.bb as nat)
}

/// The binary instructions of one match arm.
spec fn bin_match_arm(t: StringTable, layout: Layout, fl: FunctionLayout, scrutinee: MirOperand, target: MirMatchTarget) -> Seq<u8> {
    seq![32u8] + uleb(fl.matched as nat) + bin_i32(0i32) + seq![70u8] + bin_pattern_test(
        t,
        layout,
        fl.slots@,
        scrutinee,
        target.pattern,
    ) + seq![113u8, 4u8, 64u8] + bin_set_bb(target.target, fl) + bin_i32(1i32) + seq![33u8] + uleb(
        fl.matched as nat,
    ) + seq![11u8]
}

/// The binary instructions of the first `n` match arms.
spec fn bin_match_arms(t: StringTable, layout: Layout, fl: FunctionLayout, scrutinee: MirOperand, targets: Seq<MirMatchTarget>, n: int) -> Seq<u8>
    decreases n,
{
    if n <= 0 {
        Seq::empty()
    } else {
        bin_match_arms(t, layout, fl, scrutinee, targets, n - 1) + bin_match_arm(t, layout, fl, scrutinee, targets[n - 1])
    }
}

/// The binary instructions of a terminator inside the block dispatcher.
spec fn bin_terminator(t: StringTable, layout: Layout, fl: FunctionLayout, terminator: MirTerminator) -> Seq<u8> {
    match terminator {
        MirTerminator::Goto { target, .. } => bin_set_bb(target, fl),
        MirTerminator::Return { value, .. } => (match value {
            Some(v) => bin_operand(t, layout, fl.slots@, v) + seq![33u8] + uleb(fl.ret as nat),
            None => Seq::empty(),
        }) + bin_i32(1i32) + seq![33u8] + uleb(fl.done as nat),
        MirTerminator::Branch { condition, then_target, else_target, .. } => bin_operand(t, layout, fl.slots@, condition)
            + seq![4u8, 64u8] + bin_set_bb(then_target, fl) + seq![5u8] + bin_set_bb(else_target, fl) + seq![11u8],
        MirTerminator::Match { scrutinee, targets, .. } => bin_i32(0i32) + seq![33u8] + uleb(fl.matched as nat)
            + bin_match_arms(t, layout, fl, scrutinee, targets@, targets@.len() as int) + seq![32u8] + uleb(
            fl.matched as nat,
        ) + bin_i32(0i32) + seq![70u8, 4u8, 64u8, 0u8, 11u8],
    }
}

/// The binary code of the first `n` statements of a block.
spec fn bin_statements(t: StringTable, layout: Layout, fl: FunctionLayout, package: MirPackage, function: MirFunction, statements: Seq<MirStatement>, n: int) -> Seq<u8>
    decreases n,
{
    if n <= 0 {
        Seq::empty()
    } else {
        bin_statements(t, layout, fl, package, function, statements, n - 1) + match statements[n - 1] {
            MirStatement::Assign { place: MirPlace::Local(local), value, .. } => bin_rvalue(
                t,
                layout,
                fl.slots@,
                fl.string_scratch,
                package,
                function,
                value,
            ) + seq![33u8] + uleb(fl.slots@[local@ as int] as nat),
        }
    }
}

/// The declarations of the first `n` local groups, one local of the group's type each.
spec fn bin_local_decls(groups: Seq<WasmValueType>, n: int) -> Seq<u8>
    decreases n,
{
    if n <= 0 {
        Seq::empty()
    } else {
        bin_local_decls(groups, n - 1) + uleb(1) + seq![value_type_byte(groups[n - 1])]
    }
}

/// The locals a function body declares: its non-parameter locals, the return slot, and the
/// dispatcher's scratch locals.
spec fn local_groups(package: MirPackage, function: MirFunction) -> Seq<WasmValueType> {
    body_local_types(package, function, function.locals@.len() as int) + seq![
        if has_result(package, function) {
            value_type_of(package, function.return_type)
        } else {
            WasmValueType::I32
        },
        WasmValueType::I32,
        WasmValueType::I32,
        WasmValueType::I32,
        WasmValueType::I64,
    ]
}

/// The dispatcher arm of one block: when the current block is this one, run it and loop.
spec fn bin_block(t: StringTable, layout: Layout, fl: FunctionLayout, package: MirPackage, function: MirFunction, block: BasicBlock) -> Seq<u8> {
    seq![32u8] + uleb(fl.bb as nat) + bin_i32(if block.id@ <= i32::MAX { block.id@ as i32 } else { i32::MAX })
        + seq![70u8, 4u8, 64u8] + bin_statements(
        t,
        layout,
        fl,
        package,
        function,
        block.statements@,
        block.statements@.len() as int,
    ) + match block.terminator {
        Some(term) => bin_terminator(t, layout, fl, term),
        None => seq![0u8],
    } + seq![12u8] + uleb(1) + seq![11u8]
}

/// The dispatcher arms of the first `n` blocks.
spec fn bin_dispatch(t: StringTable, layout: Layout, fl: FunctionLayout, package: MirPackage, function: MirFunction, blocks: Seq<BasicBlock>, n: int) -> Seq<u8>
    decreases n,
{
    if n <= 0 {
        Seq::empty()
    } else {
        bin_dispatch(t, layout, fl, package, function, blocks, n - 1) + bin_block(
            t,
            layout,
            fl,
            package,
            function,
            blocks[n - 1],
        )
    }
}

/// The binary body of a function laid out by `fl`: its local declarations, then a loop that
/// dispatches on the current block until a return sets the done flag, then the return value.
spec fn bin_function(t: StringTable, layout: Layout, fl: FunctionLayout, package: MirPackage, function: MirFunction) -> Seq<u8> {
    let groups = local_groups(package, function);
    uleb(clamped(groups.len())) + bin_local_decls(groups, groups.len() as int) + seq![2u8, 64u8, 3u8, 64u8, 32u8]
        + uleb(fl.done as nat) + seq![13u8] + uleb(1) + bin_dispatch(
        t,
        layout,
        fl,
        package,
        function,
        function.blocks@,
        function.blocks@.len() as int,
    ) + seq![12u8] + uleb(0) + seq![11u8, 11u8] + (if has_result(package, function) {
        seq![32u8] + uleb(fl.ret as nat)
    } else {
        Seq::empty()
    }) + seq![15u8, 11u8]
}

/// The value type bytes of the parameters among the first `n` locals of a function.
spec fn param_bytes(package: MirPackage, function: MirFunction, n: int) -> Seq<u8>
    decreases n,
{
    if n <= 0 {
        Seq::empty()
    } else if function.locals@[n - 1].kind == MirLocalKind::Param {
        param_bytes(package, function, n - 1).push(
            value_type_byte(value_type_of(package, function.locals@[n - 1].ty)),
        )
    } else {
        param_bytes(package, function, n - 1)
    }
}

/// The function type of a MIR function: its parameters' value types and, unless it returns
/// nothing, its result's value type.
spec fn function_type(package: MirPackage, function: MirFunction) -> Seq<u8> {
    let params = param_bytes(package, function, function.locals@.len() as int);
    seq![96u8] + uleb(clamped(params.len())) + params + if has_result(package, function) {
        seq![1u8, value_type_byte(value_type_of(package, function.return_type))]
    } else {
        seq![0u8]
    }
}

/// The function types of the first `n` functions.
spec fn function_types(package: MirPackage, fs: Seq<MirFunction>, n: int) -> Seq<u8>
    decreases n,
{
    if n <= 0 {
        Seq::empty()
    } else {
        function_types(package, fs, n - 1) + function_type(package, fs[n - 1])
    }
}

/// `body` is the binary body of `function` under some layout of its locals.
spec fn is_function_body(t: StringTable, layout: Layout, package: MirPackage, function: MirFunction, body: Seq<u8>) -> bool {
    exists|fl: FunctionLayout|
        fl.slots@.len() == function.locals@.len() && body == #[trigger] bin_function(t, layout, fl, package, function)
}

/// The code entries of the first `n` bodies: each body prefixed by its size.
spec fn code_entries(bodies: Seq<Seq<u8>>, n: int) -> Seq<u8>
    decreases n,
{
    if n <= 0 {
        Seq::empty()
    } else {
        code_entries(bodies, n - 1) + uleb(clamped(bodies[n - 1].len())) + bodies[n - 1]
    }
}

proof fn lemma_code_entries_prefix(a: Seq<Seq<u8>>, b: Seq<Seq<u8>>, n: int)
    requires
        0 <= n <= a.len(),
        n <= b.len(),
        forall|i: int| 0 <= i < n ==> a[i] == b[i],
    ensures
        code_entries(a, n) == code_entries(b, n),
    decreases n,
{
    if n > 0 {
        lemma_code_entries_prefix(a, b, n - 1);
    }
}

/// The data segments of the first `n` string entries: each an active segment of memory 0 at the
/// entry's offset, holding the text's UTF-8 bytes.
spec fn data_segments(entries: Seq<StringEntry>, n: int) -> Seq<u8>
    decreases n,
{
    if n <= 0 {
        Seq::empty()
    } else {
        data_segments(entries, n - 1) + seq![0u8, 65u8] + sleb(u32_as_i32(entries[n - 1].offset) as i64) + seq![11u8]
            + uleb(clamped(encode_utf8(entries[n - 1].text@).len())) + encode_utf8(entries[n - 1].text@)
    }
}

impl<'a> BinaryWriter<'a> {
    #[verifier::spinoff_prover]
    fn module_head(&self) -> (r: (Vec<u8>, Ghost<Seq<u8>>, Ghost<Seq<u8>>))
        ensures
            r.0@.len() >= 8,
            r.0@.take(8) == wasm_header(),
            r.1@.len() > u32::MAX || module_framing(r.0@, r.1@, r.2@),
            r.1@.len() <= u32::MAX && sections_encodable(self.package.functions@) ==> r.0@
                == wasm_header() + section_bytes(1, r.1@) + section_bytes(2, import_payload())
                + section_bytes(3, function_payload(self.package.functions@.len()))
                + section_bytes(5, memory_payload()),
    {
        let mut module: Vec<u8> = Vec::new();
        module.push(0u8);
        module.push(97u8);
        module.push(115u8);
        module.push(109u8);
        module.push(1u8);
        module.push(0u8);
        module.push(0u8);
        module.push(0u8);
        proof {
            assert(module@ =~= wasm_header());
        }
        let tp = self.type_payload();
        let ghost type_payload = tp@;
        section(1, tp, &mut module);
        let ghost after_type = module@;
        let ip = import_payload_bytes();
        section(2, ip, &mut module);
        let ghost after_import = module@;
        let fp = self.function_payload_bytes();
        let ghost fpv = fp@;
        section(3, fp, &mut module);
        let ghost after_function = module@;
        let mp = memory_payload_bytes();
        section(5, mp, &mut module);
        proof {
            lemma_import_payload_small();
            lemma_uleb_small(1);
            lemma_uleb_small(0);
            let fs = self.package.functions@;
            if type_payload.len() <= u32::MAX && sections_encodable(fs) {
                assert(fpv == function_payload(fs.len()));
                assert(after_function == after_import + section_bytes(3, function_payload(fs.len())));
                assert(memory_payload().len() <= u32::MAX);
                assert(module@ == after_function + section_bytes(5, memory_payload()));
                assert(module@ =~= wasm_header() + section_bytes(1, type_payload) + section_bytes(
                    2,
                    import_payload(),
                ) + section_bytes(3, function_payload(fs.len())) + section_bytes(5, memory_payload()));
            }
            assert(after_type.take(8) =~= wasm_header());
            assert(module@.take(after_import.len() as int) =~= after_import);
            assert(module@.take(8) =~= wasm_header());
            let rest = module@.subrange(after_import.len() as int, module@.len() as int);
            assert(module@ =~= after_import + rest);
            if type_payload.len() <= u32::MAX {
                assert(module_framing(module@, type_payload, rest));
            }
            assert(type_payload.len() > u32::MAX || module_framing(module@, type_payload, rest));
        }
        let ghost rest = module@.subrange(after_import.len() as int, module@.len() as int);
        (module, Ghost(type_payload), Ghost(rest))
    }

    fn finish(&mut self) -> (r: (Vec<u8>, Ghost<Seq<u8>>, Ghost<Seq<u8>>))
        requires
            mir_package_wf(*old(self).package),
        ensures
            r.0@.len() >= 8,
            r.0@.take(8) == wasm_header(),
            r.1@.len() > u32::MAX || module_framing(r.0@, r.1@, r.2@),
            laid_out_unless_oversized(r.0@, old(self).package.functions@),
            final(self).package == old(self).package,
    {
        let (mut module, Ghost(tp), Ghost(rest0)) = self.module_head();
        let ghost head = module@;
        self.export_section(&mut module);
        let ghost m1 = module@;
        self.code_section(&mut module);
        let ghost m2 = module@;
        self.data_section(&mut module);
        proof {
            assert(m1.take(head.len() as int) =~= head);
            assert(m2.take(m1.len() as int) =~= m1);
            assert(module@.take(m2.len() as int) =~= m2);
            assert(module@.take(head.len() as int) =~= head);
            assert(module@.take(8) =~= head.take(8));
            let rest = rest0 + module@.subrange(head.len() as int, module@.len() as int);
            assert(module@ =~= head + module@.subrange(head.len() as int, module@.len() as int));
            if tp.len() <= u32::MAX {
                assert(head == wasm_header() + section_bytes(1, tp) + section_bytes(2, import_payload())
                    + rest0);
                assert(module@ =~= wasm_header() + section_bytes(1, tp) + section_bytes(
                    2,
                    import_payload(),
                ) + rest);
                assert(module_framing(module@, tp, rest));
            }
            assert(tp.len() > u32::MAX || module_framing(module@, tp, rest));
            let fs = self.package.functions@;
            let tail = module@.subrange(m1.len() as int, module@.len() as int);
            assert(module@ =~= m1 + tail);
            if tp.len() <= u32::MAX && sections_encodable(fs) {
                assert(m1 == head + section_bytes(7, export_payload(fs)));
                assert(module@ =~= wasm_header() + section_bytes(1, tp) + section_bytes(
                    2,
                    import_payload(),
                ) + section_bytes(3, function_payload(fs.len())) + section_bytes(5, memory_payload())
                    + section_bytes(7, export_payload(fs)) + tail);
            }
            assert(laid_out_or_oversized(module@, tp, fs, tail));
        }
        let ghost rest = rest0 + module@.subrange(head.len() as int, module@.len() as int);
        (module, Ghost(tp), Ghost(rest))
    }

    fn type_payload(&self) -> (r: Vec<u8>)
        ensures
            r@ == uleb(clamped(self.package.functions@.len() + 3)) + seq![
                96u8,
                2u8,
                127u8,
                127u8,
                0u8,
                96u8,
                1u8,
                127u8,
                0u8,
                96u8,
                0u8,
                0u8,
            ] + function_types(*self.package, self.package.functions@, self.package.functions@.len() as int),
    {
        let package = self.package;
        let ghost pkg = *package;
        let ghost fs = package.functions@;
        let mut payload: Vec<u8> = Vec::new();
        let count = if package.functions.len() <= 4294967292usize {
            (package.functions.len() as u32) + 3
        } else {
            4294967295u32
        };
        encode_u32(count, &mut payload);
        payload.push(96u8);
        payload.push(2u8);
        payload.push(127u8);
        payload.push(127u8);
        payload.push(0u8);
        payload.push(96u8);
        payload.push(1u8);
        payload.push(127u8);
        payload.push(0u8);
        payload.push(96u8);
        payload.push(0u8);
        payload.push(0u8);
        let ghost head = payload@;
        let mut f: usize = 0;
        while f < package.functions.len()
            invariant
                f <= package.functions@.len(),
                pkg == *package,
                fs == package.functions@,
                payload@ == head + function_types(pkg, fs, f as int),
            decreases package.functions@.len() - f,
        {
            let function = &package.functions[f];
            let ghost before = payload@;
            payload.push(96u8);
            let mut params: Vec<u8> = Vec::new();
            let mut i: usize = 0;
            while i < function.locals.len()
                invariant
                    i <= function.locals@.len(),
                    pkg == *package,
                    params@ == param_bytes(pkg, *function, i as int),
                decreases function.locals@.len() - i,
            {
                if function.locals[i].kind == MirLocalKind::Param {
                    params.push(wasm_value_type(package, function.locals[i].ty).binary());
                }
                i = i + 1;
            }
            let ghost ps = params@;
            encode_u32(clamp_u32(params.len()), &mut payload);
            payload.append(&mut params);
            match function_return_value_type(package, function) {
                Some(t) => {
                    payload.push(1u8);
                    payload.push(t.binary());
                },
                None => {
                    payload.push(0u8);
                },
            }
            proof {
                assert(ps == param_bytes(pkg, *function, function.locals@.len() as int));
                assert(payload@ =~= before + function_type(pkg, *function));
                assert(payload@ =~= head + function_types(pkg, fs, f + 1));
            }
            f = f + 1;
        }
        payload
    }

    fn function_payload_bytes(&self) -> (r: Vec<u8>)
        ensures
            self.package.functions@.len() + 3 <= u32::MAX ==> r@ == function_payload(
                self.package.functions@.len(),
            ),
    {
        let n = self.package.functions.len();
        let mut payload: Vec<u8> = Vec::new();
        encode_u32(clamp_u32(n), &mut payload);
        let ghost head = payload@;
        let mut i: usize = 0;
        while i < n
            invariant
                i <= n,
                n == self.package.functions@.len(),
                n + 3 <= u32::MAX ==> payload@ == head + function_type_indexes(i as nat),
            decreases n - i,
        {
            let index = if i <= 4294967292usize {
                (i as u32) + 3
            } else {
                4294967295u32
            };
            let ghost before = payload@;
            encode_u32(index, &mut payload);
            proof {
                if n + 3 <= u32::MAX {
                    assert(function_type_indexes((i + 1) as nat) == function_type_indexes(i as nat)
                        + uleb((i + 3) as nat));
                    assert(payload@ =~= head + function_type_indexes((i + 1) as nat));
                }
            }
            i = i + 1;
        }
        payload
    }

    fn export_section(&self, module: &mut Vec<u8>)
        ensures
            final(module)@.len() >= old(module)@.len(),
            final(module)@.take(old(module)@.len() as int) == old(module)@,
            sections_encodable(self.package.functions@) ==> final(module)@ == old(module)@
                + section_bytes(7, export_payload(self.package.functions@)),
    {
        let package = self.package;
        let ghost fs = package.functions@;
        let mut payload: Vec<u8> = Vec::new();
        let count = if package.functions.len() <= 4294967294usize {
            (package.functions.len() as u32) + 1
        } else {
            4294967295u32
        };
        encode_u32(count, &mut payload);
        proof {
            lemma_memory_export_small();
        }
        encode_name(WASM_MEMORY_EXPORT, &mut payload);
        payload.push(2u8);
        encode_u32(0u32, &mut payload);
        let ghost head = payload@;
        proof {
            if sections_encodable(fs) {
                assert(head == uleb(fs.len() + 1) + name_bytes(WASM_MEMORY_EXPORT@) + seq![0x02u8]
                    + uleb(0));
            }
            assert(fs.take(0) =~= Seq::<MirFunction>::empty());
            assert(head + function_exports(fs.take(0)) =~= head);
        }
        let mut f: usize = 0;
        while f < package.functions.len()
            invariant
                f <= package.functions@.len(),
                fs == package.functions@,
                sections_encodable(fs) ==> payload@ == head + function_exports(fs.take(f as int)),
            decreases package.functions@.len() - f,
        {
            let ghost before = payload@;
            encode_name(package.functions[f].name.as_str(), &mut payload);
            payload.push(0u8);
            let index = if f <= 4294967290usize {
                (f as u32) + IMPORT_COUNT
            } else {
                4294967295u32
            };
            encode_u32(index, &mut payload);
            proof {
                if sections_encodable(fs) {
                    assert(encode_utf8(fs[f as int].name@).len() <= u32::MAX);
                    assert(fs.take(f + 1).drop_last() =~= fs.take(f as int));
                    assert(fs.take(f + 1).last() == fs[f as int]);
                    assert(payload@ =~= before + export_entry(fs[f as int], f as nat));
                    assert(payload@ =~= head + function_exports(fs.take(f + 1)));
                }
            }
            f = f + 1;
        }
        proof {
            assert(fs.take(f as int) =~= fs);
        }
        let ghost before = module@;
        section(7, payload, module);
        proof {
            assert(module@.take(before.len() as int) =~= before);
        }
    }

    fn code_section(&mut self, module: &mut Vec<u8>)
        requires
            mir_package_wf(*old(self).package),
        ensures
            final(module)@.len() >= old(module)@.len(),
            final(module)@.take(old(module)@.len() as int) == old(module)@,
            final(self).package == old(self).package,
            final(self).layout == old(self).layout,
            final(self).strings == old(self).strings,
            exists|bodies: Seq<Seq<u8>>|
                #![trigger code_entries(bodies, bodies.len() as int)]
                bodies.len() == old(self).package.functions@.len() && (forall|i: int|
                    0 <= i < bodies.len() ==> is_function_body(
                        *old(self).strings,
                        *old(self).layout,
                        *old(self).package,
                        old(self).package.functions@[i],
                        #[trigger] bodies[i],
                    )) && ({
                    let payload = uleb(clamped(bodies.len())) + code_entries(bodies, bodies.len() as int);
                    final(module)@ == old(module)@ + seq![10u8] + uleb(clamped(payload.len())) + payload
                }),
    {
        let package = self.package;
        let ghost t = *self.strings;
        let ghost lay = *self.layout;
        let ghost pkg = *package;
        let mut payload: Vec<u8> = Vec::new();
        encode_u32(clamp_u32(package.functions.len()), &mut payload);
        let ghost head = payload@;
        let ghost mut bodies: Seq<Seq<u8>> = Seq::empty();
        let mut f: usize = 0;
        while f < package.functions.len()
            invariant
                self.package == package,
                pkg == *package,
                t == *self.strings,
                lay == *self.layout,
                self.layout == old(self).layout,
                self.strings == old(self).strings,
                mir_package_wf(*package),
                f <= package.functions@.len(),
                bodies.len() == f,
                forall|i: int|
                    0 <= i < f ==> is_function_body(t, lay, pkg, package.functions@[i], #[trigger] bodies[i]),
                payload@ == head + code_entries(bodies, f as int),
            decreases package.functions@.len() - f,
        {
            proof {
                assert(mir_function_wf(package.functions@[f as int]));
            }
            let mut body = self.function_body(&package.functions[f]);
            let ghost bseq = body@;
            let ghost before = payload@;
            encode_u32(clamp_u32(body.len()), &mut payload);
            payload.append(&mut body);
            proof {
                let nb = bodies.push(bseq);
                assert(code_entries(nb, f as int) == code_entries(bodies, f as int)) by {
                    lemma_code_entries_prefix(nb, bodies, f as int);
                }
                assert(payload@ =~= head + code_entries(nb, f + 1));
                bodies = nb;
            }
            f = f + 1;
        }
        let ghost before = module@;
        section(10, payload, module);
        proof {
            assert(module@.take(before.len() as int) =~= before);
            assert(bodies.len() == pkg.functions@.len());
        }
    }

    fn data_section(&self, module: &mut Vec<u8>)
        ensures
            final(module)@.len() >= old(module)@.len(),
            final(module)@.take(old(module)@.len() as int) == old(module)@,
            self.strings.entries@.len() == 0 ==> final(module)@ == old(module)@,
            self.strings.entries@.len() > 0 ==> ({
                let payload = uleb(clamped(self.strings.entries@.len())) + data_segments(
                    self.strings.entries@,
                    self.strings.entries@.len() as int,
                );
                final(module)@ == old(module)@ + seq![11u8] + uleb(clamped(payload.len())) + payload
            }),
    {
        let entries = &self.strings.entries;
        if entries.len() == 0 {
            return;
        }
        let mut payload: Vec<u8> = Vec::new();
        encode_u32(clamp_u32(entries.len()), &mut payload);
        let ghost head = payload@;
        let mut i: usize = 0;
        while i < entries.len()
            invariant
                i <= entries@.len(),
                entries@ == self.strings.entries@,
                payload@ == head + data_segments(entries@, i as int),
            decreases entries@.len() - i,
        {
            let entry = &entries[i];
            let ghost before = payload@;
            payload.push(0u8);
            payload.push(65u8);
            encode_i32(u32_to_i32(entry.offset), &mut payload);
            payload.push(11u8);
            let text = entry.text.as_str();
            let mut raw = vstd::slice::slice_to_vec(text.as_bytes());
            proof {
                assert(text.spec_bytes() == encode_utf8(entry.text@));
            }
            encode_u32(clamp_u32(raw.len()), &mut payload);
            payload.append(&mut raw);
            proof {
                assert(payload@ =~= head + data_segments(entries@, i + 1));
            }
            i = i + 1;
        }
        let ghost before = module@;
        section(11, payload, module);
        proof {
            assert(module@.take(before.len() as int) =~= before);
        }
    }

    fn function_body(&mut self, function: &MirFunction) -> (r: Vec<u8>)
        requires
            mir_function_wf(*function),
        ensures
            final(self).package == old(self).package,
            final(self).layout == old(self).layout,
            final(self).strings == old(self).strings,
            exists|fl: FunctionLayout|
                fl.slots@.len() == function.locals@.len() && r@ == #[trigger] bin_function(
                    *old(self).strings,
                    *old(self).layout,
                    fl,
                    *old(self).package,
                    *function,
                ),
    {
        let ghost t = *self.strings;
        let ghost lay = *self.layout;
        let package = self.package;
        let ghost pkg = *package;
        let layout = FunctionLayout::new(function);
        let mut body: Vec<u8> = Vec::new();
        let groups = declared_local_groups(function, package);
        proof {
            assert(groups@ == local_groups(pkg, *function));
        }
        encode_u32(clamp_u32(groups.len()), &mut body);
        let ghost head = body@;
        let mut g: usize = 0;
        while g < groups.len()
            invariant
                g <= groups@.len(),
                body@ == head + bin_local_decls(groups@, g as int),
            decreases groups@.len() - g,
        {
            encode_u32(1u32, &mut body);
            body.push(groups[g].binary());
            proof {
                assert(body@ =~= head + bin_local_decls(groups@, g + 1));
            }
            g = g + 1;
        }
        body.push(2u8);
        body.push(64u8);
        body.push(3u8);
        body.push(64u8);
        instr_local_get(layout.done, &mut body);
        instr_br_if(1u32, &mut body);
        let ghost pre = body@;
        let mut b: usize = 0;
        while b < function.blocks.len()
            invariant
                mir_function_wf(*function),
                layout.slots@.len() == function.locals@.len(),
                self.package == package,
                pkg == *package,
                t == *self.strings,
                lay == *self.layout,
                self.layout == old(self).layout,
                self.strings == old(self).strings,
                b <= function.blocks@.len(),
                body@ == pre + bin_dispatch(t, lay, layout, pkg, *function, function.blocks@, b as int),
            decreases function.blocks@.len() - b,
        {
            let block = &function.blocks[b];
            proof {
                assert(block_ok_in(*block, *function));
            }
            let ghost before = body@;
            instr_local_get(layout.bb, &mut body);
            instr_i32_const(clamp_i32(block.id.get()), &mut body);
            body.push(70u8);
            body.push(4u8);
            body.push(64u8);
            self.block_body(block, function, &layout, &mut body);
            instr_br(1u32, &mut body);
            body.push(11u8);
            proof {
                assert(body@ =~= before + bin_block(t, lay, layout, pkg, *function, *block));
                assert(body@ =~= pre + bin_dispatch(t, lay, layout, pkg, *function, function.blocks@, b + 1));
            }
            b = b + 1;
        }
        let ghost mid = body@;
        instr_br(0u32, &mut body);
        body.push(11u8);
        body.push(11u8);
        if function_result(package, function) {
            instr_local_get(layout.ret, &mut body);
        }
        body.push(15u8);
        body.push(11u8);
        proof {
            assert(body@ =~= bin_function(t, lay, layout, pkg, *function));
        }
        body
    }

    fn block_body(&mut self, block: &BasicBlock, function: &MirFunction, layout: &FunctionLayout, body: &mut Vec<u8>)
        requires
            block_ok_in(*block, *function),
            layout.slots@.len() == function.locals@.len(),
        ensures
            final(self).package == old(self).package,
            final(self).layout == old(self).layout,
            final(self).strings == old(self).strings,
            final(body)@ == old(body)@ + bin_statements(
                *old(self).strings,
                *old(self).layout,
                *layout,
                *old(self).package,
                *function,
                block.statements@,
                block.statements@.len() as int,
            ) + match block.terminator {
                Some(term) => bin_terminator(*old(self).strings, *old(self).layout, *layout, term),
                None => seq![0u8],
            },
    {
        let ghost t = *self.strings;
        let ghost lay = *self.layout;
        let ghost pkg = *self.package;
        let mut s: usize = 0;
        while s < block.statements.len()
            invariant
                block_ok_in(*block, *function),
                layout.slots@.len() == function.locals@.len(),
                self.package == old(self).package,
                self.layout == old(self).layout,
                self.strings == old(self).strings,
                t == *self.strings,
                lay == *self.layout,
                pkg == *self.package,
                s <= block.statements@.len(),
                body@ == old(body)@ + bin_statements(t, lay, *layout, pkg, *function, block.statements@, s as int),
            decreases block.statements@.len() - s,
        {
            match &block.statements[s] {
                MirStatement::Assign { place: MirPlace::Local(local), value, .. } => {
                    proof {
                        assert(statement_ok(block.statements@[s as int], function.locals@.len() as int));
                    }
                    self.rvalue(value, function, layout, body);
                    instr_local_set(layout.local(*local), body);
                },
            }
            proof {
                assert(body@ =~= old(body)@ + bin_statements(t, lay, *layout, pkg, *function, block.statements@, s + 1));
            }
            s = s + 1;
        }
        let ghost mid = body@;
        match &block.terminator {
            Some(term) => self.terminator(term, function, layout, body),
            None => body.push(0u8),
        }
        proof {
            assert(body@ =~= mid + match block.terminator {
                Some(term) => bin_terminator(t, lay, *layout, term),
                None => seq![0u8],
            });
        }
    }

    #[verifier::spinoff_prover]
    #[verifier::rlimit(40)]
    fn terminator(&mut self, terminator: &MirTerminator, function: &MirFunction, layout: &FunctionLayout, body: &mut Vec<u8>)
        requires
            terminator_ok(*terminator, function.locals@.len() as int, function.blocks@.len() as int),
            layout.slots@.len() == function.locals@.len(),
        ensures
            final(self).package == old(self).package,
            final(self).layout == old(self).layout,
            final(self).strings == old(self).strings,
            final(body)@ == old(body)@ + bin_terminator(*old(self).strings, *old(self).layout, *layout, *terminator),
    {
        let ghost t = *self.strings;
        let ghost lay = *self.layout;
        let ghost start = body@;
        match terminator {
            MirTerminator::Goto { target, .. } => set_bb(*target, layout, body),
            MirTerminator::Return { value, .. } => {
                if let Some(v) = value {
                    self.operand(v, layout, body);
                    instr_local_set(layout.ret, body);
                }
                let ghost mid = body@;
                instr_i32_const(1i32, body);
                instr_local_set(layout.done, body);
                proof {
                    assert(mid =~= start + (match *value {
                        Some(v) => bin_operand(t, lay, layout.slots@, v) + seq![33u8] + uleb(layout.ret as nat),
                        None => Seq::empty(),
                    }));
                    assert(body@ =~= start + bin_terminator(t, lay, *layout, *terminator));
                }
            },
            MirTerminator::Branch { condition, then_target, else_target, .. } => {
                self.operand(condition, layout, body);
                body.push(4u8);
                body.push(64u8);
                set_bb(*then_target, layout, body);
                body.push(5u8);
                set_bb(*else_target, layout, body);
                body.push(11u8);
                proof {
                    assert(body@ =~= start + bin_terminator(t, lay, *layout, *terminator));
                }
            },
            MirTerminator::Match { scrutinee, targets, .. } => {
                instr_i32_const(0i32, body);
                instr_local_set(layout.matched, body);
                let ghost head = body@;
                let mut i: usize = 0;
                while i < targets.len()
                    invariant
                        operand_ok(*scrutinee, function.locals@.len() as int),
                        layout.slots@.len() == function.locals@.len(),
                        self.package == old(self).package,
                        self.layout == old(self).layout,
                        self.strings == old(self).strings,
                        t == *self.strings,
                        lay == *self.layout,
                        i <= targets@.len(),
                        body@ == head + bin_match_arms(t, lay, *layout, *scrutinee, targets@, i as int),
                    decreases targets@.len() - i,
                {
                    let ghost before = body@;
                    instr_local_get(layout.matched, body);
                    instr_i32_const(0i32, body);
                    body.push(70u8);
                    self.match_condition(&targets[i].pattern, scrutinee, layout, body);
                    body.push(113u8);
                    body.push(4u8);
                    body.push(64u8);
                    set_bb(targets[i].target, layout, body);
                    instr_i32_const(1i32, body);
                    instr_local_set(layout.matched, body);
                    body.push(11u8);
                    proof {
                        assert(body@ =~= before + bin_match_arm(t, lay, *layout, *scrutinee, targets@[i as int]));
                        assert(body@ =~= head + bin_match_arms(t, lay, *layout, *scrutinee, targets@, i + 1));
                    }
                    i = i + 1;
                }
                instr_local_get(layout.matched, body);
                instr_i32_const(0i32, body);
                body.push(70u8);
                body.push(4u8);
                body.push(64u8);
                body.push(0u8);
                body.push(11u8);
                proof {
                    assert(body@ =~= start + bin_terminator(t, lay, *layout, *terminator));
                }
            },
        }
    }

    fn match_condition(&self, pattern: &MirBranchPattern, scrutinee: &MirOperand, layout: &FunctionLayout, body: &mut Vec<u8>)
        requires
            operand_ok(*scrutinee, layout.slots@.len() as int),
        ensures
            final(body)@ == old(body)@ + bin_pattern_test(*self.strings, *self.layout, layout.slots@, *scrutinee, *pattern),
    {
        match pattern {
            MirBranchPattern::Wildcard => instr_i32_const(1i32, body),
            MirBranchPattern::Literal(text) => {
                self.operand(scrutinee, layout, body);
                self.literal(text.as_str(), body);
                body.push(70u8);
            },
            MirBranchPattern::Variant(symbol) => {
                self.operand(scrutinee, layout, body);
                instr_i32_const(VARIANT_TAG_MASK, body);
                body.push(113u8);
                instr_i32_const(u32_to_i32(self.layout.variant_tag(*symbol)), body);
                body.push(70u8);
            },
        }
    }

    fn rvalue(&mut self, value: &MirRvalue, function: &MirFunction, layout: &FunctionLayout, body: &mut Vec<u8>)
        requires
            rvalue_ok(*value, layout.slots@.len() as int),
        ensures
            final(self).package == old(self).package,
            final(self).layout == old(self).layout,
            final(self).strings == old(self).strings,
            final(body)@ == old(body)@ + bin_rvalue(
                *old(self).strings,
                *old(self).layout,
                layout.slots@,
                layout.string_scratch,
                *old(self).package,
                *function,
                *value,
            ),
    {
        proof {
            reveal_strlit("+");
            reveal_strlit("-");
            reveal_strlit("*");
            reveal_strlit("/");
            reveal_strlit("<");
            reveal_strlit(">");
        }
        match value {
            MirRvalue::Use(operand) => self.operand(operand, layout, body),
            MirRvalue::Call { callee, args } => match callee {
                MirOperand::Function(symbol) => {
                    if is_core_log_symbol(self.package, *symbol) {
                        self.log_call(args, function, layout, body);
                        return;
                    }
                    let mut i: usize = 0;
                    let ghost start = body@;
                    while i < args.len()
                        invariant
                            operands_ok(args@, layout.slots@.len() as int),
                            i <= args@.len(),
                            body@ == start + bin_operands(*self.strings, *self.layout, layout.slots@, args@, i as int),
                        decreases args@.len() - i,
                    {
                        self.operand(&args[i], layout, body);
                        proof {
                            assert(body@ =~= start + bin_operands(*self.strings, *self.layout, layout.slots@, args@, i + 1));
                        }
                        i = i + 1;
                    }
                    match self.layout.function_index(*symbol) {
                        Some(index) => {
                            body.push(16u8);
                            encode_u32(index, body);
                        },
                        None => {
                            self.diagnostics.push(wasm_note("unknown function call lowered to 0"));
                            instr_i32_const(0i32, body);
                        },
                    }
                },
                MirOperand::Variant(symbol) => self.aggregate_variant(*symbol, args, layout, body),
                _ => {
                    self.diagnostics.push(wasm_note("unsupported dynamic call lowered to 0"));
                    instr_i32_const(0i32, body);
                },
            },
            MirRvalue::Binary { op, left, right } => {
                self.operand(left, layout, body);
                self.operand(right, layout, body);
                if str_eq(op, "+") {
                    body.push(106u8);
                } else if str_eq(op, "-") {
                    body.push(107u8);
                } else if str_eq(op, "*") {
                    body.push(108u8);
                } else if str_eq(op, "/") {
                    body.push(109u8);
                } else if str_eq(op, "<") {
                    body.push(72u8);
                } else if str_eq(op, ">") {
                    body.push(74u8);
                } else {
                    let mut message = owned("unsupported binary operator `");
                    message.append(op);
                    message.append("` in binary output");
                    self.diagnostics.push(wasm_note(message.as_str()));
                    body.push(26u8);
                    instr_i32_const(0i32, body);
                }
            },
            MirRvalue::AggregateVariant { variant, fields } => self.aggregate_variant(*variant, fields, layout, body),
            MirRvalue::ProjectVariant { source, .. } => {
                self.operand(source, layout, body);
                instr_i32_const(VARIANT_PAYLOAD_SHIFT, body);
                body.push(117u8);
            },
        }
    }

    fn aggregate_variant(&mut self, variant: SymbolId, fields: &Vec<MirOperand>, layout: &FunctionLayout, body: &mut Vec<u8>)
        requires
            operands_ok(fields@, layout.slots@.len() as int),
        ensures
            final(self).package == old(self).package,
            final(self).layout == old(self).layout,
            final(self).strings == old(self).strings,
            final(body)@ == old(body)@ + bin_variant(*old(self).strings, *old(self).layout, layout.slots@, variant, fields@),
    {
        let tag = u32_to_i32(self.layout.variant_tag(variant));
        if fields.len() > 0 {
            self.operand(&fields[0], layout, body);
            instr_i32_const(VARIANT_PAYLOAD_SHIFT, body);
            body.push(116u8);
            instr_i32_const(tag, body);
            body.push(114u8);
            if fields.len() > 1 {
                self.diagnostics.push(
                    wasm_note("multi-field enum variant lowered using only field 0 in binary output"),
                );
            }
        } else {
            instr_i32_const(tag, body);
        }
    }

    fn operand(&self, operand: &MirOperand, layout: &FunctionLayout, body: &mut Vec<u8>)
        requires
            operand_ok(*operand, layout.slots@.len() as int),
        ensures
            final(body)@ == old(body)@ + bin_operand(*self.strings, *self.layout, layout.slots@, *operand),
    {
        match operand {
            MirOperand::Copy(MirPlace::Local(local)) => instr_local_get(layout.local(*local), body),
            MirOperand::Const(MirConstant::Unit) | MirOperand::Function(_) => instr_i32_const(0i32, body),
            MirOperand::Const(MirConstant::Literal(text)) => self.literal(text.as_str(), body),
            MirOperand::Variant(symbol) => instr_i32_const(u32_to_i32(self.layout.variant_tag(*symbol)), body),
        }
    }

    fn literal(&self, text: &str, body: &mut Vec<u8>)
        ensures
            final(body)@ == old(body)@ + bin_literal(*self.strings, text@),
    {
        proof {
            reveal_strlit("string(");
        }
        if let Some(value) = int_literal_value(text) {
            instr_i32_const(value, body);
        } else if let Some(value) = bool_literal_value(text) {
            instr_i32_const(
                if value {
                    1i32
                } else {
                    0i32
                },
                body,
            );
        } else if starts_with(text, "string(") {
            instr_i64_const(self.strings.handle_for_literal(text), body);
        } else {
            instr_i32_const(0i32, body);
        }
    }

    fn log_call(&mut self, args: &Vec<MirOperand>, function: &MirFunction, layout: &FunctionLayout, body: &mut Vec<u8>)
        requires
            operands_ok(args@, layout.slots@.len() as int),
        ensures
            final(self).package == old(self).package,
            final(self).layout == old(self).layout,
            final(self).strings == old(self).strings,
            final(body)@ == old(body)@ + bin_log_call(
                *old(self).strings,
                *old(self).layout,
                layout.slots@,
                layout.string_scratch,
                *old(self).package,
                *function,
                args@,
            ),
    {
        if args.len() == 0 {
            self.diagnostics.push(wasm_note("core.log call without message lowered to unit"));
            instr_i32_const(0i32, body);
            return;
        }
        let message = &args[0];
        if args.len() == 1 {
            self.log_string_chunk(message, layout, body);
            instr_call(DEBUG_LOG_END_IMPORT_INDEX, body);
            instr_i32_const(0i32, body);
            return;
        }
        let format = match log_format_of(message) {
            Some(f) => f,
            None => {
                self.diagnostics.push(
                    wasm_note("core.log formatted call without literal format lowered to unit"),
                );
                instr_i32_const(0i32, body);
                return;
            },
        };
        let mut index: usize = 0;
        let ghost segs = string_views(format.segments@);
        let ghost start = body@;
        while index < format.segments.len()
            invariant
                operands_ok(args@, layout.slots@.len() as int),
                args@.len() >= 2,
                index <= format.segments@.len(),
                segs == string_views(format.segments@),
                self.package == old(self).package,
                self.layout == old(self).layout,
                self.strings == old(self).strings,
                body@ == start + bin_log_chunks(
                    *self.strings,
                    *self.layout,
                    layout.slots@,
                    layout.string_scratch,
                    *self.package,
                    *function,
                    segs,
                    args@,
                    index as int,
                ),
            decreases format.segments@.len() - index,
        {
            let segment = &format.segments[index];
            let ghost before = body@;
            let seg_text = segment.as_str();
            proof {
                assert(segs[index as int] == segment@);
                assert(seg_text.spec_bytes() == encode_utf8(segment@));
            }
            if seg_text.len() > 0 {
                self.log_text_chunk(segment.as_str(), body);
            }
            let ghost mid = body@;
            if index + 1 < args.len() {
                self.log_value_chunk(&args[index + 1], function, layout, body);
            }
            proof {
                assert(mid =~= before + (if text_len(segs[index as int]) > 0 {
                    bin_text_chunk(*self.strings, segs[index as int])
                } else {
                    Seq::empty()
                }));
                assert(body@ =~= start + bin_log_chunks(
                    *self.strings,
                    *self.layout,
                    layout.slots@,
                    layout.string_scratch,
                    *self.package,
                    *function,
                    segs,
                    args@,
                    index + 1,
                ));
            }
            index = index + 1;
        }
        instr_call(DEBUG_LOG_END_IMPORT_INDEX, body);
        instr_i32_const(0i32, body);
        proof {
            assert(body@ =~= old(body)@ + bin_log_call(
                *old(self).strings,
                *old(self).layout,
                layout.slots@,
                layout.string_scratch,
                *old(self).package,
                *function,
                args@,
            ));
        }
    }

    fn log_text_chunk(&self, text: &str, body: &mut Vec<u8>)
        ensures
            final(body)@ == old(body)@ + bin_text_chunk(*self.strings, text@),
    {
        let pointer = match self.strings.offset_for_text(text) {
            Some(o) => o,
            None => 0u32,
        };
        proof {
            assert(text.spec_bytes() == encode_utf8(text@));
            if table_holds(*self.strings, text@) {
                let k = choose|k: int| #[trigger] first_entry_at(*self.strings, text@, k) && self.strings.entries@[k].offset == pointer;
                let c = choose|k: int| first_entry_at(*self.strings, text@, k);
                lemma_first_entry_unique(*self.strings, text@, k, c);
            }
        }
        instr_i32_const(u32_to_i32(pointer), body);
        instr_i32_const(clamp_i32(text.len()), body);
        instr_call(DEBUG_STRING_IMPORT_INDEX, body);
    }

    fn log_string_chunk(&self, operand: &MirOperand, layout: &FunctionLayout, body: &mut Vec<u8>)
        requires
            operand_ok(*operand, layout.slots@.len() as int),
        ensures
            final(body)@ == old(body)@ + bin_string_chunk(
                *self.strings,
                *self.layout,
                layout.slots@,
                layout.string_scratch,
                *operand,
            ),
    {
        if let MirOperand::Const(MirConstant::Literal(text)) = operand {
            if let Some(value) = string_literal_value(text.as_str()) {
                self.log_text_chunk(value.as_str(), body);
                return;
            }
        }
        self.operand(operand, layout, body);
        instr_local_set(layout.string_scratch, body);
        instr_local_get(layout.string_scratch, body);
        body.push(167u8);
        instr_local_get(layout.string_scratch, body);
        instr_i64_const(32i64, body);
        body.push(136u8);
        body.push(167u8);
        instr_call(DEBUG_STRING_IMPORT_INDEX, body);
    }

    fn log_value_chunk(&self, operand: &MirOperand, function: &MirFunction, layout: &FunctionLayout, body: &mut Vec<u8>)
        requires
            operand_ok(*operand, layout.slots@.len() as int),
        ensures
            final(body)@ == old(body)@ + (if operand_type_of(*self.package, *operand, *function) == WasmValueType::I64 {
                bin_string_chunk(*self.strings, *self.layout, layout.slots@, layout.string_scratch, *operand)
            } else {
                bin_operand(*self.strings, *self.layout, layout.slots@, *operand) + seq![16u8] + uleb(
                    (if (match *operand {
                        MirOperand::Const(MirConstant::Literal(text)) => has_prefix(text@, "bool("@),
                        MirOperand::Copy(MirPlace::Local(local)) => first_local_has_kind(*self.package, *function, local, MirTypeKind::Bool),
                        _ => false,
                    }) {
                        DEBUG_BOOL_IMPORT_INDEX
                    } else {
                        DEBUG_I32_IMPORT_INDEX
                    }) as nat,
                )
            }),
    {
        match operand_value_type(self.package, operand, function) {
            WasmValueType::I64 => self.log_string_chunk(operand, layout, body),
            WasmValueType::I32 => {
                self.operand(operand, layout, body);
                if operand_is_bool(self.package, operand, function) {
                    instr_call(DEBUG_BOOL_IMPORT_INDEX, body);
                } else {
                    instr_call(DEBUG_I32_IMPORT_INDEX, body);
                }
            },
        }
    }
}

/// A block that refers only to its function's locals and blocks.
pub open spec fn block_ok_in(b: BasicBlock, f: MirFunction) -> bool {
    crate::mir::block_ok(b, f.locals@.len() as int, f.blocks@.len() as int)
}

fn set_bb(target: BasicBlockId, layout: &FunctionLayout, body: &mut Vec<u8>)
    ensures
        final(body)@ == old(body)@ + bin_set_bb(target, *layout),
{
    instr_i32_const(clamp_i32(target.get()), body);
    instr_local_set(layout.bb, body);
}

fn import_payload_bytes() -> (r: Vec<u8>)
    ensures
        r@ == import_payload(),
{
    let mut payload: Vec<u8> = Vec::new();
    encode_u32(IMPORT_COUNT, &mut payload);
    proof {
        lemma_import_payload_small();
    }
    import_func(WASM_IMPORT_PANIC, 0u32, &mut payload);
    import_func(WASM_IMPORT_DEBUG_STRING, 0u32, &mut payload);
    import_func(WASM_IMPORT_DEBUG_I32, 1u32, &mut payload);
    import_func(WASM_IMPORT_DEBUG_BOOL, 1u32, &mut payload);
    import_func(WASM_IMPORT_DEBUG_LOG_END, 2u32, &mut payload);
    proof {
        assert(payload@ =~= import_payload());
    }
    payload
}

fn memory_payload_bytes() -> (r: Vec<u8>)
    ensures
        r@ == memory_payload(),
{
    let mut payload: Vec<u8> = Vec::new();
    encode_u32(1u32, &mut payload);
    payload.push(0u8);
    encode_u32(1u32, &mut payload);
    proof {
        assert(payload@ =~= memory_payload());
    }
    payload
}

// ---------------------------------------------------------------------------
// Backend facade
// ---------------------------------------------------------------------------

/// What every compilation produces: the stable artifact names, the layout note first among
/// the diagnostics, a WAT text that starts with the host imports and memory, and a binary that
/// starts with the preamble, the type section and the import section of the host functions.
pub open spec fn wasm_artifacts_wf(r: WasmArtifacts) -> bool {
    &&& r.artifact_names.wat_dump@ == WAT_DUMP_NAME@
    &&& r.artifact_names.wasm_binary@ == WASM_BINARY_NAME@
    &&& r.diagnostics@.len() >= 1
    &&& r.diagnostics@[0].message@ == WASM_LAYOUT_NOTE@
    &&& r.wat@.len() >= wat_prelude().len()
    &&& r.wat@.take(wat_prelude().len() as int) == wat_prelude()
    &&& r.wasm@.len() >= 8
    &&& r.wasm@.take(8) == wasm_header()
    &&& exists|tp: Seq<u8>, rest: Seq<u8>| #[trigger] framed_unless_oversized(r.wasm@, tp, rest)
}

/// The module has the framing, unless the type payload is too large for a section size.
pub open spec fn framed_unless_oversized(wasm: Seq<u8>, tp: Seq<u8>, rest: Seq<u8>) -> bool {
    tp.len() > u32::MAX || module_framing(wasm, tp, rest)
}

/// Compile one MIR package into WAT and WASM artifacts; the WAT text exports every function under
/// its own name.
pub fn compile_mir_to_wasm(package: &MirPackage) -> (r: WasmArtifacts)
    requires
        mir_package_wf(*package),
    ensures
        wasm_artifacts_wf(r),
        exports_all(r.wat@, package.functions@),
        wat_module_of(*package, r.wat@),
        laid_out_unless_oversized(r.wasm@, package.functions@),
{
    WasmBackend::new().compile(package)
}

/// MIR-to-WASM backend facade.
#[derive(Clone, Copy, Debug, Default, PartialEq, Eq, Structural)]
pub struct WasmBackend;

impl WasmBackend {
    /// Creates a WASM backend.
    pub fn new() -> (r: Self) {
        WasmBackend
    }

    /// Compiles a MIR package into WAT and WASM artifacts.
    pub fn compile(&self, package: &MirPackage) -> (r: WasmArtifacts)
        requires
            mir_package_wf(*package),
        ensures
            wasm_artifacts_wf(r),
            exports_all(r.wat@, package.functions@),
            wat_module_of(*package, r.wat@),
            laid_out_unless_oversized(r.wasm@, package.functions@),
    {
        let layout = Layout::new(package);
        let strings = StringTable::new(package);
        let wat_writer = WatWriter {
            package,
            layout: &layout,
            strings: &strings,
            diagnostics: Vec::new(),
            output: String::new(),
        };
        let (wat, mut wat_diags) = wat_writer.finish();
        let mut binary_writer = BinaryWriter {
            package,
            layout: &layout,
            strings: &strings,
            diagnostics: Vec::new(),
        };
        let (wasm, Ghost(tp), Ghost(rest)) = binary_writer.finish();
        let mut diagnostics: Vec<WasmDiagnostic> = Vec::new();
        diagnostics.push(wasm_note(WASM_LAYOUT_NOTE));
        diagnostics.append(&mut wat_diags);
        diagnostics.append(&mut binary_writer.diagnostics);
        let r = WasmArtifacts { wat, wasm, artifact_names: WasmArtifactNames::default(), diagnostics };
        proof {
            assert(r.diagnostics@[0].message@ == WASM_LAYOUT_NOTE@);
            assert(r.wat@.take(wat_prelude().len() as int) == wat_prelude());
            assert(r.wasm@.take(8) == wasm_header());
            assert(r.artifact_names.wat_dump@ == WAT_DUMP_NAME@);
            assert(r.artifact_names.wasm_binary@ == WASM_BINARY_NAME@);
            assert(r.diagnostics@.len() >= 1);
            assert(framed_unless_oversized(r.wasm@, tp, rest));
            assert(r.wat@.len() >= wat_prelude().len());
            assert(r.wasm@.len() >= 8);
            assert(wat_prelude() + Seq::<char>::empty() =~= wat_prelude());
            assert(wat_module_of(*package, r.wat@));
        }
        r
    }
}

// ---------------------------------------------------------------------------
// MIR execution helper
// ---------------------------------------------------------------------------

/// Result returned by the MIR execution helper used by backend golden tests.
pub type WasmRunResult = Result<i32, WasmRunError>;

/// Execution error from the MIR execution helper.
#[derive(Debug)]
pub struct WasmRunError {
    message: String,
}

impl View for WasmRunError {
    type V = Seq<char>;

    closed spec fn view(&self) -> Seq<char> {
        self.message@
    }
}

impl WasmRunError {
    /// The error's message.
    pub fn message(&self) -> (r: &str)
        ensures
            r@ == self@,
    {
        self.message.as_str()
    }
}

fn run_error(message: String) -> (r: WasmRunError)
    ensures
        r@ == message@,
{
    WasmRunError { message }
}

/// The message for an export that no function provides.
pub open spec fn unknown_export_message(name: Seq<char>) -> Seq<char> {
    "unknown export `"@ + name + "`"@
}

/// The message for a call with the wrong number of arguments.
pub open spec fn arity_message(name: Seq<char>, expected: nat, actual: nat) -> Seq<char> {
    "export `"@ + name + "` expects "@ + crate::text::decimal(expected) + " args, got "@
        + crate::text::decimal(actual)
}

/// Whether a local is a parameter.
pub open spec fn param_pred() -> spec_fn(crate::mir::MirLocal) -> bool {
    |l: crate::mir::MirLocal| l.kind == MirLocalKind::Param
}

/// The number of parameters of a function.
pub open spec fn param_count(f: MirFunction) -> nat {
    f.locals@.filter(param_pred()).len()
}

/// The first function with the given name.
pub open spec fn is_first_named(fs: Seq<MirFunction>, name: Seq<char>, i: int) -> bool {
    &&& 0 <= i < fs.len()
    &&& fs[i].name@ == name
    &&& forall|j: int| 0 <= j < i ==> (#[trigger] fs[j]).name@ != name
}

/// What running MIR gives: a value, or the message of the error that stopped it.
pub open spec fn run_outcome(r: WasmRunResult) -> Result<i32, Seq<char>> {
    match r {
        Ok(v) => Ok(v),
        Err(e) => Err(e@),
    }
}

/// Message of the error for arithmetic whose result does not fit an `i32`, or a division by 0.
pub open spec fn arith_message() -> Seq<char> {
    "MIR arithmetic overflow"@
}

/// The runtime value of a variant tag.
pub open spec fn tag_value(p: MirPackage, s: SymbolId) -> i32 {
    u32_as_i32(variant_tag_of(p.symbols@, s))
}

/// Division rounding toward zero.
pub open spec fn div_toward_zero(a: int, b: int) -> int {
    let q = (if a >= 0 {
        a
    } else {
        -a
    }) / (if b >= 0 {
        b
    } else {
        -b
    });
    if (a >= 0) == (b >= 0) {
        q
    } else {
        -q
    }
}

/// The value of an operand, given the values of the locals.
pub open spec fn operand_value(p: MirPackage, op: MirOperand, locals: Seq<i32>) -> Result<
    i32,
    Seq<char>,
> {
    match op {
        MirOperand::Copy(MirPlace::Local(l)) => if l@ < locals.len() {
            Ok(locals[l@ as int])
        } else {
            Err("invalid local"@)
        },
        MirOperand::Const(MirConstant::Unit) => Ok(0i32),
        MirOperand::Function(_) => Ok(0i32),
        MirOperand::Const(MirConstant::Literal(t)) => match literal_i32(t@) {
            Some(v) => Ok(v),
            None => Ok(0i32),
        },
        MirOperand::Variant(s) => Ok(tag_value(p, s)),
    }
}

/// The value of an enum variant: its tag, with the first field above the tag's byte.
pub open spec fn variant_value(
    p: MirPackage,
    variant: SymbolId,
    fields: Seq<MirOperand>,
    locals: Seq<i32>,
) -> Result<i32, Seq<char>> {
    let tag = tag_value(p, variant);
    if fields.len() == 0 {
        Ok(tag)
    } else {
        match operand_value(p, fields[0], locals) {
            Ok(v) => Ok((v << 8u32) | tag),
            Err(e) => Err(e),
        }
    }
}

/// The values of operands from left to right, or the first error.
pub open spec fn operand_values(p: MirPackage, ops: Seq<MirOperand>, locals: Seq<i32>) -> Result<
    Seq<i32>,
    Seq<char>,
>
    decreases ops.len(),
{
    if ops.len() == 0 {
        Ok(Seq::empty())
    } else {
        match operand_value(p, ops[0], locals) {
            Err(e) => Err(e),
            Ok(v) => match operand_values(p, ops.drop_first(), locals) {
                Ok(vs) => Ok(seq![v] + vs),
                Err(e) => Err(e),
            },
        }
    }
}

/// The value of a binary operation on `i32` values.
pub open spec fn binary_value(op: Seq<char>, l: i32, r: i32) -> Result<i32, Seq<char>> {
    if op == "+"@ {
        if i32::MIN <= l + r <= i32::MAX {
            Ok((l + r) as i32)
        } else {
            Err(arith_message())
        }
    } else if op == "-"@ {
        if i32::MIN <= l - r <= i32::MAX {
            Ok((l - r) as i32)
        } else {
            Err(arith_message())
        }
    } else if op == "*"@ {
        if i32::MIN <= l * r <= i32::MAX {
            Ok((l * r) as i32)
        } else {
            Err(arith_message())
        }
    } else if op == "/"@ {
        if r == 0 || (l == i32::MIN && r == -1) {
            Err(arith_message())
        } else {
            Ok(div_toward_zero(l as int, r as int) as i32)
        }
    } else if op == "<"@ {
        Ok(
            if l < r {
                1i32
            } else {
                0i32
            },
        )
    } else if op == ">"@ {
        Ok(
            if l > r {
                1i32
            } else {
                0i32
            },
        )
    } else {
        Err("unsupported operator `"@ + op + "`"@)
    }
}

/// Position of the first function from `i` on with the given symbol.
pub open spec fn function_with_symbol(fs: Seq<MirFunction>, s: SymbolId, i: int) -> Option<int>
    decreases fs.len() - i,
{
    if i < 0 || i >= fs.len() {
        None
    } else if fs[i].symbol == Some(s) {
        Some(i)
    } else {
        function_with_symbol(fs, s, i + 1)
    }
}

/// Whether a match pattern accepts a value.
pub open spec fn pattern_accepts(p: MirPackage, pat: MirBranchPattern, v: i32) -> bool {
    match pat {
        MirBranchPattern::Wildcard => true,
        MirBranchPattern::Literal(t) => match literal_i32(t@) {
            Some(x) => x == v,
            None => false,
        },
        MirBranchPattern::Variant(s) => (v & VARIANT_TAG_MASK) == tag_value(p, s),
    }
}

/// Position of the first match target from `i` on whose pattern accepts the value.
pub open spec fn first_accepting(
    p: MirPackage,
    targets: Seq<crate::mir::MirMatchTarget>,
    v: i32,
    i: int,
) -> Option<int>
    decreases targets.len() - i,
{
    if i < 0 || i >= targets.len() {
        None
    } else if pattern_accepts(p, targets[i].pattern, v) {
        Some(i)
    } else {
        first_accepting(p, targets, v, i + 1)
    }
}

/// The ids of the parameters among the locals, in order.
pub open spec fn param_ids(locals: Seq<crate::mir::MirLocal>) -> Seq<usize>
    decreases locals.len(),
{
    if locals.len() == 0 {
        Seq::empty()
    } else {
        param_ids(locals.drop_last()) + if locals.last().kind == MirLocalKind::Param {
            seq![locals.last().id@]
        } else {
            Seq::empty()
        }
    }
}

/// `n` locals set to 0, then each parameter set to its argument in turn.
pub open spec fn initial_locals(params: Seq<usize>, args: Seq<i32>, n: nat) -> Seq<i32>
    decreases params.len(),
{
    if params.len() == 0 || args.len() == 0 {
        Seq::new(n, |_k: int| 0i32)
    } else {
        initial_locals(params.drop_last(), args.drop_last(), n).update(
            params.last() as int,
            args.last(),
        )
    }
}

/// The value of an rvalue; a call runs the callee one level deeper.
pub open spec fn rvalue_value(p: MirPackage, rv: MirRvalue, locals: Seq<i32>, depth: int) -> Result<
    i32,
    Seq<char>,
>
    decreases depth, 0int, 0int,
{
    match rv {
        MirRvalue::Use(op) => operand_value(p, op, locals),
        MirRvalue::Call { callee, args } => match callee {
            MirOperand::Function(sym) => match function_with_symbol(p.functions@, sym, 0) {
                None => Err("unknown function symbol"@),
                Some(ix) => match operand_values(p, args@, locals) {
                    Err(e) => Err(e),
                    Ok(vs) => if depth <= 0 {
                        Err("MIR call depth exceeded"@)
                    } else {
                        function_value(p, p.functions@[ix], vs, depth - 1)
                    },
                },
            },
            MirOperand::Variant(sym) => variant_value(p, sym, args@, locals),
            _ => Err("unsupported dynamic call"@),
        },
        MirRvalue::Binary { op, left, right } => match operand_value(p, left, locals) {
            Err(e) => Err(e),
            Ok(l) => match operand_value(p, right, locals) {
                Err(e) => Err(e),
                Ok(r) => binary_value(op@, l, r),
            },
        },
        MirRvalue::AggregateVariant { variant, fields } => variant_value(
            p,
            variant,
            fields@,
            locals,
        ),
        MirRvalue::ProjectVariant { source, .. } => match operand_value(p, source, locals) {
            Ok(v) => Ok(v >> 8u32),
            Err(e) => Err(e),
        },
    }
}

/// The locals after running the statements from position `i` on, or the first error.
pub open spec fn statements_value(
    p: MirPackage,
    stmts: Seq<MirStatement>,
    i: int,
    locals: Seq<i32>,
    depth: int,
) -> Result<Seq<i32>, Seq<char>>
    decreases depth, 1int, stmts.len() - i,
{
    if i < 0 || i >= stmts.len() {
        Ok(locals)
    } else {
        match stmts[i] {
            MirStatement::Assign { place: MirPlace::Local(l), value, .. } => match rvalue_value(
                p,
                value,
                locals,
                depth,
            ) {
                Err(e) => Err(e),
                Ok(v) => statements_value(p, stmts, i + 1, locals.update(l@ as int, v), depth),
            },
        }
    }
}

/// The value a function returns when run from block `current` with `fuel` more blocks.
pub open spec fn blocks_value(
    p: MirPackage,
    f: MirFunction,
    locals: Seq<i32>,
    current: int,
    fuel: int,
    depth: int,
) -> Result<i32, Seq<char>>
    decreases depth, 2int, fuel,
{
    if fuel <= 0 {
        Err("MIR execution exceeded step limit"@)
    } else if current < 0 || current >= f.blocks@.len() {
        Err("invalid basic block"@)
    } else {
        let b = f.blocks@[current];
        match statements_value(p, b.statements@, 0, locals, depth) {
            Err(e) => Err(e),
            Ok(ls) => match b.terminator {
                None => Err("unreachable block"@),
                Some(MirTerminator::Goto { target, .. }) => blocks_value(
                    p,
                    f,
                    ls,
                    target@ as int,
                    fuel - 1,
                    depth,
                ),
                Some(MirTerminator::Return { value, .. }) => match value {
                    Some(v) => operand_value(p, v, ls),
                    None => Ok(0i32),
                },
                Some(MirTerminator::Branch { condition, then_target, else_target, .. }) => match operand_value(
                    p,
                    condition,
                    ls,
                ) {
                    Err(e) => Err(e),
                    Ok(c) => blocks_value(
                        p,
                        f,
                        ls,
                        if c != 0 {
                            then_target@ as int
                        } else {
                            else_target@ as int
                        },
                        fuel - 1,
                        depth,
                    ),
                },
                Some(MirTerminator::Match { scrutinee, targets, .. }) => match operand_value(
                    p,
                    scrutinee,
                    ls,
                ) {
                    Err(e) => Err(e),
                    Ok(v) => match first_accepting(p, targets@, v, 0) {
                        Some(t) => blocks_value(
                            p,
                            f,
                            ls,
                            targets@[t].target@ as int,
                            fuel - 1,
                            depth,
                        ),
                        None => Err("non-exhaustive MIR match"@),
                    },
                },
            },
        }
    }
}

/// The value a function returns for the given arguments, with `depth` more nested calls.
pub open spec fn function_value(p: MirPackage, f: MirFunction, args: Seq<i32>, depth: int) -> Result<
    i32,
    Seq<char>,
>
    decreases depth, 3int, 0int,
{
    let params = param_ids(f.locals@);
    if args.len() != params.len() {
        Err(arity_message(f.name@, params.len(), args.len()))
    } else {
        blocks_value(
            p,
            f,
            initial_locals(params, args, f.locals@.len()),
            0,
            MIR_STEP_LIMIT as int,
            depth,
        )
    }
}

/// The value an export returns for the given arguments.
pub open spec fn export_value(p: MirPackage, name: Seq<char>, args: Seq<i32>) -> Result<
    i32,
    Seq<char>,
> {
    match first_named(p.functions@, name, 0) {
        None => Err(unknown_export_message(name)),
        Some(i) => function_value(p, p.functions@[i], args, MIR_CALL_DEPTH as int),
    }
}

/// Position of the first function from `i` on with the given name.
pub open spec fn first_named(fs: Seq<MirFunction>, name: Seq<char>, i: int) -> Option<int>
    decreases fs.len() - i,
{
    if i < 0 || i >= fs.len() {
        None
    } else if fs[i].name@ == name {
        Some(i)
    } else {
        first_named(fs, name, i + 1)
    }
}

/// Executes one exported MIR function with the backend's v1 i32 layout.
///
/// This helper keeps golden tests independent from a host WebAssembly runtime while checking
/// the same value representation used by codegen.
///
/// Returns an error when the export is missing, arguments do not match, or MIR execution reaches
/// unsupported or invalid control flow.
pub fn run_i32_export(package: &MirPackage, name: &str, args: &[i32]) -> (r: WasmRunResult)
    requires
        mir_package_wf(*package),
    ensures
        run_outcome(r) == export_value(*package, name@, args@),
        (forall|i: int| 0 <= i < package.functions@.len() ==> (#[trigger] package.functions@[i]).name@
            != name@) ==> (r matches Err(e) && e@ == unknown_export_message(name@)),
        forall|i: int|
            is_first_named(package.functions@, name@, i) && param_count(package.functions@[i])
                != args@.len() ==> (r matches Err(e) && e@ == arity_message(
                name@,
                param_count(package.functions@[i]),
                args@.len(),
            )),
{
    let runner = MirRunner { package, layout: Layout::new(package) };
    runner.run_i32(name, args)
}

struct MirRunner<'a> {
    package: &'a MirPackage,
    layout: Layout,
}

fn arith_error() -> (r: WasmRunError)
    ensures
        r@ == arith_message(),
{
    proof {
        reveal_strlit("MIR arithmetic overflow");
    }
    run_error(owned("MIR arithmetic overflow"))
}

fn message_error(text: &str) -> (r: WasmRunError)
    ensures
        r@ == text@,
{
    run_error(owned(text))
}

/// The parameter ids of a function have as many entries as it has parameters.
proof fn lemma_param_ids_len(locals: Seq<crate::mir::MirLocal>)
    ensures
        param_ids(locals).len() == locals.filter(param_pred()).len(),
        forall|j: int| 0 <= j < param_ids(locals).len() ==> exists|x: int|
            0 <= x < locals.len() && #[trigger] param_ids(locals)[j] == locals[x].id@,
    decreases locals.len(),
{
    reveal(Seq::filter);
    if locals.len() > 0 {
        lemma_param_ids_len(locals.drop_last());
        let rest = param_ids(locals.drop_last());
        assert forall|j: int| 0 <= j < param_ids(locals).len() implies exists|x: int|
            0 <= x < locals.len() && #[trigger] param_ids(locals)[j] == locals[x].id@ by {
            if j < rest.len() {
                let x = choose|x: int|
                    0 <= x < locals.drop_last().len() && #[trigger] rest[j]
                        == locals.drop_last()[x].id@;
                assert(locals.drop_last()[x] == locals[x]);
                assert(param_ids(locals)[j] == rest[j]);
            } else {
                assert(param_ids(locals)[j] == locals[locals.len() - 1].id@);
            }
        }
    }
}

/// The parameter ids and the first `k` of them.
proof fn lemma_param_ids_take(locals: Seq<crate::mir::MirLocal>, k: int)
    requires
        0 <= k < locals.len(),
    ensures
        param_ids(locals.take(k + 1)) == param_ids(locals.take(k)) + if locals[k].kind
            == MirLocalKind::Param {
            seq![locals[k].id@]
        } else {
            Seq::<usize>::empty()
        },
{
    assert(locals.take(k + 1).drop_last() =~= locals.take(k));
    assert(locals.take(k + 1).last() == locals[k]);
}

proof fn lemma_initial_locals_len(params: Seq<usize>, args: Seq<i32>, n: nat)
    requires
        forall|j: int| 0 <= j < params.len() ==> #[trigger] params[j] < n,
    ensures
        initial_locals(params, args, n).len() == n,
    decreases params.len(),
{
    if params.len() > 0 && args.len() > 0 {
        assert(forall|j: int| 0 <= j < params.drop_last().len() ==> params.drop_last()[j] == params[j]);
        lemma_initial_locals_len(params.drop_last(), args.drop_last(), n);
        assert(params.last() == params[params.len() - 1]);
    }
}

impl<'a> MirRunner<'a> {
    spec fn ready(&self) -> bool {
        &&& mir_package_wf(*self.package)
        &&& self.layout.tags_for(*self.package)
    }

    fn tag(&self, symbol: SymbolId) -> (r: i32)
        requires
            self.ready(),
        ensures
            r == tag_value(*self.package, symbol),
    {
        u32_to_i32(self.layout.variant_tag(symbol))
    }

    fn run_i32(&self, name: &str, args: &[i32]) -> (r: WasmRunResult)
        requires
            self.ready(),
        ensures
            run_outcome(r) == export_value(*self.package, name@, args@),
            (forall|i: int| 0 <= i < self.package.functions@.len() ==> (
            #[trigger] self.package.functions@[i]).name@ != name@) ==> (r matches Err(e) && e@
                == unknown_export_message(name@)),
            forall|i: int|
                is_first_named(self.package.functions@, name@, i) && param_count(
                    self.package.functions@[i],
                ) != args@.len() ==> (r matches Err(e) && e@ == arity_message(
                    name@,
                    param_count(self.package.functions@[i]),
                    args@.len(),
                )),
    {
        let functions = &self.package.functions;
        let mut i: usize = 0;
        while i < functions.len()
            invariant
                i <= functions@.len(),
                forall|j: int| 0 <= j < i ==> (#[trigger] functions@[j]).name@ != name@,
                first_named(functions@, name@, 0) == first_named(functions@, name@, i as int),
                self.ready(),
                functions == &self.package.functions,
            decreases functions@.len() - i,
        {
            if str_eq(functions[i].name.as_str(), name) {
                proof {
                    assert(is_first_named(functions@, name@, i as int));
                    assert forall|k: int| is_first_named(functions@, name@, k) implies k == i by {
                        if k < i {
                            assert(functions@[k].name@ != name@);
                        }
                        if k > i {
                            assert(functions@[i as int].name@ != name@);
                        }
                    }
                    assert(crate::mir::mir_function_wf(functions@[i as int]));
                    lemma_param_ids_len(functions@[i as int].locals@);
                }
                return self.run_function(&functions[i], args, MIR_CALL_DEPTH);
            }
            i = i + 1;
        }
        let mut message = owned("unknown export `");
        message.append(name);
        message.append("`");
        Err(run_error(message))
    }

    #[verifier::spinoff_prover]
    #[verifier::rlimit(80)]
    fn run_function(&self, function: &MirFunction, args: &[i32], depth: usize) -> (r: WasmRunResult)
        requires
            self.ready(),
            crate::mir::mir_function_wf(*function),
        ensures
            run_outcome(r) == function_value(*self.package, *function, args@, depth as int),
            param_count(*function) != args@.len() ==> (r matches Err(e) && e@ == arity_message(
                function.name@,
                param_count(*function),
                args@.len(),
            )),
        decreases depth, 1nat,
    {
        let ghost p = *self.package;
        let n = function.locals.len();
        let mut params: Vec<usize> = Vec::new();
        let mut k: usize = 0;
        proof {
            assert(function.locals@.take(0) =~= Seq::<crate::mir::MirLocal>::empty());
        }
        while k < n
            invariant
                k <= n,
                n == function.locals@.len(),
                params@ == param_ids(function.locals@.take(k as int)),
                forall|j: int| 0 <= j < params@.len() ==> #[trigger] params@[j] < n,
                crate::mir::mir_function_wf(*function),
            decreases n - k,
        {
            proof {
                lemma_param_ids_take(function.locals@, k as int);
            }
            if function.locals[k].kind == MirLocalKind::Param {
                params.push(function.locals[k].id.get());
            }
            k = k + 1;
        }
        proof {
            assert(function.locals@.take(n as int) =~= function.locals@);
            lemma_param_ids_len(function.locals@);
        }
        if args.len() != params.len() {
            let mut message = owned("export `");
            message.append(function.name.as_str());
            message.append("` expects ");
            push_decimal(&mut message, params.len());
            message.append(" args, got ");
            push_decimal(&mut message, args.len());
            return Err(run_error(message));
        }
        let mut locals: Vec<i32> = Vec::new();
        let mut z: usize = 0;
        while z < n
            invariant
                z <= n,
                locals@ == Seq::new(z as nat, |_k: int| 0i32),
            decreases n - z,
        {
            locals.push(0i32);
            z = z + 1;
            proof {
                assert(locals@ =~= Seq::new(z as nat, |_k: int| 0i32));
            }
        }
        let mut q: usize = 0;
        proof {
            assert(params@.take(0) =~= Seq::<usize>::empty());
            assert(args@.take(0) =~= Seq::<i32>::empty());
        }
        while q < params.len()
            invariant
                q <= params@.len(),
                locals@.len() == n,
                params@.len() == args@.len(),
                forall|j: int| 0 <= j < params@.len() ==> #[trigger] params@[j] < n,
                locals@ == initial_locals(params@.take(q as int), args@.take(q as int), n as nat),
            decreases params@.len() - q,
        {
            proof {
                assert(params@.take(q + 1).drop_last() =~= params@.take(q as int));
                assert(args@.take(q + 1).drop_last() =~= args@.take(q as int));
            }
            locals.set(params[q], args[q]);
            q = q + 1;
        }
        proof {
            assert(params@.take(q as int) =~= params@);
            assert(args@.take(q as int) =~= args@);
        }
        let ghost goal = function_value(p, *function, args@, depth as int);
        let mut current: usize = 0;
        let mut step: usize = 0;
        proof {
            assert(param_count(*function) == params@.len());
            assert(goal == blocks_value(p, *function, locals@, 0, MIR_STEP_LIMIT as int, depth as int));
        }
        while step < MIR_STEP_LIMIT
            invariant
                locals@.len() == function.locals@.len(),
                n == function.locals@.len(),
                param_count(*function) == args@.len(),
                crate::mir::mir_function_wf(*function),
                self.ready(),
                p == *self.package,
                step <= MIR_STEP_LIMIT,
                goal == function_value(p, *function, args@, depth as int),
                goal == blocks_value(
                    p,
                    *function,
                    locals@,
                    current as int,
                    MIR_STEP_LIMIT - step,
                    depth as int,
                ),
            decreases MIR_STEP_LIMIT - step,
        {
            if current >= function.blocks.len() {
                return Err(message_error("invalid basic block"));
            }
            let block = &function.blocks[current];
            let ghost start_locals = locals@;
            proof {
                assert(crate::mir::block_ok(*block, n as int, function.blocks@.len() as int)) by {
                    assert(crate::mir::block_ok(
                        function.blocks@[current as int],
                        n as int,
                        function.blocks@.len() as int,
                    ));
                }
            }
            let mut s: usize = 0;
            while s < block.statements.len()
                invariant
                    locals@.len() == function.locals@.len(),
                    param_count(*function) == args@.len(),
                    crate::mir::block_ok(
                        *block,
                        function.locals@.len() as int,
                        function.blocks@.len() as int,
                    ),
                    self.ready(),
                    p == *self.package,
                    s <= block.statements@.len(),
                    statements_value(p, block.statements@, 0, start_locals, depth as int)
                        == statements_value(p, block.statements@, s as int, locals@, depth as int),
                    step < MIR_STEP_LIMIT,
                    goal == function_value(p, *function, args@, depth as int),
                    current < function.blocks@.len(),
                    *block == function.blocks@[current as int],
                    goal == blocks_value(
                        p,
                        *function,
                        start_locals,
                        current as int,
                        MIR_STEP_LIMIT - step,
                        depth as int,
                    ),
                decreases block.statements@.len() - s,
            {
                proof {
                    assert(statement_ok(block.statements@[s as int], function.locals@.len() as int));
                }
                match &block.statements[s] {
                    MirStatement::Assign { place: MirPlace::Local(local), value, .. } => {
                        let v = match self.eval_rvalue(value, &locals, depth) {
                            Ok(v) => v,
                            Err(e) => {
                                return Err(e);
                            },
                        };
                        locals.set(local.get(), v);
                    },
                }
                s = s + 1;
            }
            let ghost ls = locals@;
            proof {
                assert(statements_value(p, block.statements@, 0, start_locals, depth as int) == Ok::<
                    Seq<i32>,
                    Seq<char>,
                >(ls));
            }
            match &block.terminator {
                None => {
                    return Err(message_error("unreachable block"));
                },
                Some(MirTerminator::Goto { target, .. }) => {
                    current = target.get();
                },
                Some(MirTerminator::Return { value, .. }) => {
                    return match value {
                        Some(v) => self.eval_operand(v, &locals),
                        None => Ok(0i32),
                    };
                },
                Some(MirTerminator::Branch { condition, then_target, else_target, .. }) => {
                    let c = match self.eval_operand(condition, &locals) {
                        Ok(c) => c,
                        Err(e) => {
                            return Err(e);
                        },
                    };
                    current = if c != 0 {
                        then_target.get()
                    } else {
                        else_target.get()
                    };
                },
                Some(MirTerminator::Match { scrutinee, targets, .. }) => {
                    let value = match self.eval_operand(scrutinee, &locals) {
                        Ok(v) => v,
                        Err(e) => {
                            return Err(e);
                        },
                    };
                    let mut t: usize = 0;
                    while t < targets.len() && !self.pattern_matches(&targets[t].pattern, value)
                        invariant
                            t <= targets@.len(),
                            self.ready(),
                            first_accepting(p, targets@, value, 0) == first_accepting(
                                p,
                                targets@,
                                value,
                                t as int,
                            ),
                            p == *self.package,
                        decreases targets@.len() - t,
                    {
                        t = t + 1;
                    }
                    if t < targets.len() {
                        current = targets[t].target.get();
                    } else {
                        return Err(message_error("non-exhaustive MIR match"));
                    }
                },
            }
            step = step + 1;
        }
        Err(message_error("MIR execution exceeded step limit"))
    }

    #[verifier::spinoff_prover]
    #[verifier::rlimit(40)]
    fn eval_rvalue(&self, value: &MirRvalue, locals: &Vec<i32>, depth: usize) -> (r: WasmRunResult)
        requires
            self.ready(),
        ensures
            run_outcome(r) == rvalue_value(*self.package, *value, locals@, depth as int),
        decreases depth, 0nat,
    {
        let ghost p = *self.package;
        match value {
            MirRvalue::Use(operand) => self.eval_operand(operand, locals),
            MirRvalue::Call { callee, args } => match callee {
                MirOperand::Function(symbol) => {
                    let functions = &self.package.functions;
                    let mut i: usize = 0;
                    while i < functions.len() && functions[i].symbol != Some(*symbol)
                        invariant
                            i <= functions@.len(),
                            functions == &self.package.functions,
                            function_with_symbol(functions@, *symbol, 0) == function_with_symbol(
                                functions@,
                                *symbol,
                                i as int,
                            ),
                        decreases functions@.len() - i,
                    {
                        i = i + 1;
                    }
                    if i >= functions.len() {
                        return Err(message_error("unknown function symbol"));
                    }
                    let index = i;
                    proof {
                        assert(function_with_symbol(functions@, *symbol, 0) == Some(index as int));
                    }
                    let mut values: Vec<i32> = Vec::new();
                    let mut a: usize = 0;
                    proof {
                        assert(args@.skip(0) =~= args@);
                        assert(values@ + Seq::<i32>::empty() =~= values@);
                    }
                    while a < args.len()
                        invariant
                            a <= args@.len(),
                            self.ready(),
                            p == *self.package,
                            functions == &self.package.functions,
                            index < functions@.len(),
                            function_with_symbol(functions@, *symbol, 0) == Some(index as int),
                            *value == (MirRvalue::Call {
                                callee: MirOperand::Function(*symbol),
                                args: *args,
                            }),
                            operand_values(p, args@, locals@) == match operand_values(
                                p,
                                args@.skip(a as int),
                                locals@,
                            ) {
                                Ok(vs) => Ok::<Seq<i32>, Seq<char>>(values@ + vs),
                                Err(e) => Err(e),
                            },
                        decreases args@.len() - a,
                    {
                        proof {
                            assert(args@.skip(a as int).drop_first() =~= args@.skip(a + 1));
                            assert(args@.skip(a as int)[0] == args@[a as int]);
                        }
                        match self.eval_operand(&args[a], locals) {
                            Ok(v) => {
                                let ghost before = values@;
                                values.push(v);
                                proof {
                                    assert forall|vs: Seq<i32>| true implies before + (seq![v] + vs)
                                        == values@ + vs by {
                                        assert(before + (seq![v] + vs) =~= values@ + vs);
                                    }
                                }
                            },
                            Err(e) => {
                                return Err(e);
                            },
                        }
                        a = a + 1;
                    }
                    proof {
                        assert(args@.skip(a as int) =~= Seq::<MirOperand>::empty());
                        assert(values@ + Seq::<i32>::empty() =~= values@);
                    }
                    if depth == 0 {
                        return Err(message_error("MIR call depth exceeded"));
                    }
                    proof {
                        assert(crate::mir::mir_function_wf(functions@[index as int]));
                    }
                    self.run_function(&functions[index], values.as_slice(), depth - 1)
                },
                MirOperand::Variant(symbol) => self.eval_variant(*symbol, args, locals),
                _ => Err(message_error("unsupported dynamic call")),
            },
            MirRvalue::Binary { op, left, right } => {
                let l = match self.eval_operand(left, locals) {
                    Ok(v) => v,
                    Err(e) => {
                        return Err(e);
                    },
                };
                let r = match self.eval_operand(right, locals) {
                    Ok(v) => v,
                    Err(e) => {
                        return Err(e);
                    },
                };
                proof {
                    reveal_strlit("+");
                    reveal_strlit("-");
                    reveal_strlit("*");
                    reveal_strlit("/");
                    reveal_strlit("<");
                    reveal_strlit(">");
                }
                if str_eq(op, "+") {
                    match l.checked_add(r) {
                        Some(v) => Ok(v),
                        None => Err(arith_error()),
                    }
                } else if str_eq(op, "-") {
                    match l.checked_sub(r) {
                        Some(v) => Ok(v),
                        None => Err(arith_error()),
                    }
                } else if str_eq(op, "*") {
                    match l.checked_mul(r) {
                        Some(v) => Ok(v),
                        None => Err(arith_error()),
                    }
                } else if str_eq(op, "/") {
                    if r == 0 || (l == i32::MIN && r == -1) {
                        Err(arith_error())
                    } else {
                        Ok(div_i32(l, r))
                    }
                } else if str_eq(op, "<") {
                    Ok(
                        if l < r {
                            1i32
                        } else {
                            0i32
                        },
                    )
                } else if str_eq(op, ">") {
                    Ok(
                        if l > r {
                            1i32
                        } else {
                            0i32
                        },
                    )
                } else {
                    let mut message = owned("unsupported operator `");
                    message.append(op);
                    message.append("`");
                    Err(run_error(message))
                }
            },
            MirRvalue::AggregateVariant { variant, fields } => self.eval_variant(*variant, fields, locals),
            MirRvalue::ProjectVariant { source, .. } => match self.eval_operand(source, locals) {
                Ok(v) => Ok(v >> 8u32),
                Err(e) => Err(e),
            },
        }
    }

    fn eval_variant(&self, variant: SymbolId, fields: &Vec<MirOperand>, locals: &Vec<i32>) -> (r:
        WasmRunResult)
        requires
            self.ready(),
        ensures
            run_outcome(r) == variant_value(*self.package, variant, fields@, locals@),
    {
        let tag = self.tag(variant);
        if fields.len() == 0 {
            return Ok(tag);
        }
        match self.eval_operand(&fields[0], locals) {
            Ok(v) => Ok((v << 8u32) | tag),
            Err(e) => Err(e),
        }
    }

    fn eval_operand(&self, operand: &MirOperand, locals: &Vec<i32>) -> (r: WasmRunResult)
        requires
            self.ready(),
        ensures
            run_outcome(r) == operand_value(*self.package, *operand, locals@),
    {
        match operand {
            MirOperand::Copy(MirPlace::Local(local)) => {
                if local.get() < locals.len() {
                    Ok(locals[local.get()])
                } else {
                    Err(message_error("invalid local"))
                }
            },
            MirOperand::Const(MirConstant::Unit) | MirOperand::Function(_) => Ok(0i32),
            MirOperand::Const(MirConstant::Literal(text)) => match literal_number(text.as_str()) {
                Some(v) => Ok(v),
                None => Ok(0i32),
            },
            MirOperand::Variant(symbol) => Ok(self.tag(*symbol)),
        }
    }

    fn pattern_matches(&self, pattern: &MirBranchPattern, value: i32) -> (r: bool)
        requires
            self.ready(),
        ensures
            r == pattern_accepts(*self.package, *pattern, value),
    {
        match pattern {
            MirBranchPattern::Wildcard => true,
            MirBranchPattern::Literal(text) => match literal_number(text.as_str()) {
                Some(v) => v == value,
                None => false,
            },
            MirBranchPattern::Variant(symbol) => (value & VARIANT_TAG_MASK) == self.tag(*symbol),
        }
    }
}

/// Division of `i32` values rounding toward zero, for operands whose quotient fits.
fn div_i32(l: i32, r: i32) -> (q: i32)
    requires
        r != 0,
        !(l == i32::MIN && r == -1),
    ensures
        q as int == div_toward_zero(l as int, r as int),
{
    let la: i64 = if l < 0 {
        -(l as i64)
    } else {
        l as i64
    };
    let ra: i64 = if r < 0 {
        -(r as i64)
    } else {
        r as i64
    };
    let q: i64 = la / ra;
    assert(q * ra <= la && q >= 0) by (nonlinear_arith)
        requires
            ra >= 1,
            la >= 0,
            q == la / ra,
    ;
    assert(ra >= 2 ==> q * 2 <= q * ra) by (nonlinear_arith)
        requires
            q >= 0,
    ;
    if (l < 0) == (r < 0) {
        q as i32
    } else {
        (-q) as i32
    }
}


/// Signed division truncated toward zero, as WebAssembly's `i32.div_s` computes it.
pub open spec fn truncated_quotient(a: int, b: int) -> int {
    if b < 0 {
        -(if a >= 0 {
            a / (-b)
        } else {
            -((-a) / (-b))
        })
    } else {
        if a >= 0 {
            a / b
        } else {
            -((-a) / b)
        }
    }
}

/// What WebAssembly's `i32` binary instructions compute on two operands, by instruction name:
/// arithmetic wraps around, comparisons give `1` or `0`, and `None` stands for a trap or a
/// name that is not one of these instructions.
pub open spec fn wasm_i32_instr_value(name: Seq<char>, a: i32, b: i32) -> Option<i32> {
    if name == "i32.add"@ {
        Some((a + b) as i32)
    } else if name == "i32.sub"@ {
        Some((a - b) as i32)
    } else if name == "i32.mul"@ {
        Some((a * b) as i32)
    } else if name == "i32.div_s"@ {
        if b == 0 || (a == i32::MIN && b == -1) {
            None
        } else {
            Some(truncated_quotient(a as int, b as int) as i32)
        }
    } else if name == "i32.eq"@ {
        Some(if a == b { 1i32 } else { 0i32 })
    } else if name == "i32.ne"@ {
        Some(if a != b { 1i32 } else { 0i32 })
    } else if name == "i32.lt_s"@ {
        Some(if a < b { 1i32 } else { 0i32 })
    } else if name == "i32.gt_s"@ {
        Some(if a > b { 1i32 } else { 0i32 })
    } else if name == "i32.le_s"@ {
        Some(if a <= b { 1i32 } else { 0i32 })
    } else if name == "i32.ge_s"@ {
        Some(if a >= b { 1i32 } else { 0i32 })
    } else {
        None
    }
}

/// The WebAssembly binary opcode of each signed `i32` binary instruction.
pub open spec fn wasm_i32_opcode_instr(code: u8) -> Option<Seq<char>> {
    if code == 0x46u8 {
        Some("i32.eq"@)
    } else if code == 0x47u8 {
        Some("i32.ne"@)
    } else if code == 0x48u8 {
        Some("i32.lt_s"@)
    } else if code == 0x4au8 {
        Some("i32.gt_s"@)
    } else if code == 0x4cu8 {
        Some("i32.le_s"@)
    } else if code == 0x4eu8 {
        Some("i32.ge_s"@)
    } else if code == 0x6au8 {
        Some("i32.add"@)
    } else if code == 0x6bu8 {
        Some("i32.sub"@)
    } else if code == 0x6cu8 {
        Some("i32.mul"@)
    } else if code == 0x6du8 {
        Some("i32.div_s"@)
    } else {
        None
    }
}

proof fn lemma_truncated_quotient(a: int, b: int)
    ensures
        truncated_quotient(a, b) == div_toward_zero(a, b),
{
}

/// The code emitted for a MIR binary operation computes what the MIR semantics gives: wherever
/// `binary_value` yields a value, both the WAT instruction and the binary opcode chosen for the
/// operator are WebAssembly instructions that yield that same value on the same operands.
pub proof fn lemma_emitted_binary_ops_compute_mir_values(op: Seq<char>, a: i32, b: i32)
    ensures
        binary_value(op, a, b) matches Ok(v) ==> (wat_binary_instr(op) matches Some(name) && wasm_i32_instr_value(
            name,
            a,
            b,
        ) == Some(v)),
        binary_value(op, a, b) matches Ok(v) ==> (bin_binary_opcode(op) matches Some(code) && wasm_i32_opcode_instr(
            code,
        ) matches Some(name) && wasm_i32_instr_value(name, a, b) == Some(v)),
{
    reveal_strlit("+");
    reveal_strlit("-");
    reveal_strlit("*");
    reveal_strlit("/");
    reveal_strlit("<");
    reveal_strlit(">");
    reveal_strlit("i32.add");
    reveal_strlit("i32.sub");
    reveal_strlit("i32.mul");
    reveal_strlit("i32.div_s");
    reveal_strlit("i32.eq");
    reveal_strlit("i32.ne");
    reveal_strlit("i32.lt_s");
    reveal_strlit("i32.gt_s");
    reveal_strlit("i32.le_s");
    reveal_strlit("i32.ge_s");
    assert("+"@.len() == 1 && "+"@[0] == '+');
    assert("-"@.len() == 1 && "-"@[0] == '-');
    assert("*"@.len() == 1 && "*"@[0] == '*');
    assert("/"@.len() == 1 && "/"@[0] == '/');
    assert("<"@.len() == 1 && "<"@[0] == '<');
    assert(">"@.len() == 1 && ">"@[0] == '>');
    assert("i32.add"@[4] == 'a' && "i32.sub"@[4] == 's' && "i32.mul"@[4] == 'm' && "i32.div_s"@[4] == 'd');
    assert("i32.eq"@[4] == 'e' && "i32.ne"@[4] == 'n' && "i32.lt_s"@[4] == 'l' && "i32.gt_s"@[4] == 'g');
    assert("i32.le_s"@[4] == 'l' && "i32.le_s"@[5] == 'e' && "i32.lt_s"@[5] == 't');
    assert("i32.ge_s"@[4] == 'g' && "i32.ge_s"@[5] == 'e' && "i32.gt_s"@[5] == 't');
    assert("i32.eq"@[5] == 'q' && "i32.ne"@[5] == 'e');
    lemma_truncated_quotient(a as int, b as int);
    if op == "+"@ {
        assert(wat_binary_instr(op) == Some("i32.add"@));
        assert(bin_binary_opcode(op) == Some(0x6au8));
    } else if op == "-"@ {
        assert(wat_binary_instr(op) == Some("i32.sub"@));
        assert(bin_binary_opcode(op) == Some(0x6bu8));
        assert(wasm_i32_instr_value("i32.sub"@, a, b) == Some((a - b) as i32));
    } else if op == "*"@ {
        assert(wat_binary_instr(op) == Some("i32.mul"@));
        assert(wasm_i32_instr_value("i32.mul"@, a, b) == Some((a * b) as i32));
    } else if op == "/"@ {
        assert(wat_binary_instr(op) == Some("i32.div_s"@));
        assert(wasm_i32_opcode_instr(0x6du8) == Some("i32.div_s"@));
    } else if op == "<"@ {
        assert(wat_binary_instr(op) == Some("i32.lt_s"@));
        assert(wasm_i32_opcode_instr(0x48u8) == Some("i32.lt_s"@));
        assert(wasm_i32_instr_value("i32.lt_s"@, a, b) == Some(if a < b { 1i32 } else { 0i32 }));
    } else if op == ">"@ {
        assert(wat_binary_instr(op) == Some("i32.gt_s"@));
        assert(wasm_i32_opcode_instr(0x4au8) == Some("i32.gt_s"@));
        assert(wasm_i32_instr_value("i32.gt_s"@, a, b) == Some(if a > b { 1i32 } else { 0i32 }));
    }
}

} // verus!
