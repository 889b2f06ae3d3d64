//! Name resolution from syntax AST to HIR.
use vstd::prelude::*;
use vstd::string::*;

use crate::ast::{
    binary_op_str, binary_op_text, literal_string, literal_text, AstFile, BlockExpr, EnumDecl, EnumVariant, Expr, MatchArm,
    FunctionDecl, ImplDecl, ImportDecl, Item, Pattern, Statement, StructDecl, TraitDecl, TypeRef,
};
use crate::diagnostic::{
    diagnostic_views, is_valid_code, Diagnostic, DiagnosticCode, DiagnosticSeverity, DiagnosticSpan,
    DiagnosticView,
};
use crate::hir::{
    builtin_named, BuiltinType, HirBlock, HirEnum, HirExpr, HirField, HirFunction, HirImpl, HirImport, HirItem,
    HirItemKind, HirLet, HirLocal, HirMatchArm, HirModule, HirPackage, HirParam, HirPattern,
    HirStatement, HirStruct, HirTrait, HirTypeRef, HirVariant, ItemId, LocalId, LocalKind, ModuleId,
    ResolvedPath, Symbol, SymbolId, SymbolKind,
};
use crate::parser::{is_syntax_diagnostic, parse_reports, parse_source, ParseResult};
use crate::source::{SourceFile, TextRange};
use crate::text::{decimal, join, owned, push_decimal, push_join, str_eq, string_views};

verus! {

/// Duplicate definition diagnostic.
pub const MD_DUPLICATE_NAME: &'static str = "MD0301";

/// Unresolved path diagnostic.
pub const MD_UNRESOLVED_NAME: &'static str = "MD0302";

/// Invalid import diagnostic.
pub const MD_INVALID_IMPORT: &'static str = "MD0303";

/// A diagnostic the resolver reports: one of its three codes, an error, with one note.
pub open spec fn is_resolver_diagnostic(d: DiagnosticView) -> bool {
    &&& (d.code == MD_DUPLICATE_NAME@ || d.code == MD_UNRESOLVED_NAME@ || d.code
        == MD_INVALID_IMPORT@)
    &&& d.severity == DiagnosticSeverity::Error
    &&& d.notes.len() == 1
}

/// `after` keeps the diagnostics of `before` and adds only resolver diagnostics.
pub open spec fn diags_extend(after: Seq<Diagnostic>, before: Seq<Diagnostic>) -> bool {
    &&& after.len() >= before.len()
    &&& forall|k: int| 0 <= k < before.len() ==> #[trigger] after[k] == before[k]
    &&& forall|k: int|
        before.len() <= k < after.len() ==> is_resolver_diagnostic(#[trigger] after[k]@)
}

/// The resolver's codes follow the diagnostic code rule.
pub proof fn lemma_resolver_codes_valid()
    ensures
        is_valid_code(MD_DUPLICATE_NAME@),
        is_valid_code(MD_UNRESOLVED_NAME@),
        is_valid_code(MD_INVALID_IMPORT@),
{
    reveal_strlit("MD0301");
    reveal_strlit("MD0302");
    reveal_strlit("MD0303");
}

/// Syntax and resolver diagnostics have different codes.
pub proof fn lemma_syntax_not_resolver(d: DiagnosticView)
    ensures
        is_syntax_diagnostic(d) ==> !is_resolver_diagnostic(d),
{
    reveal_strlit("MD0101");
    reveal_strlit("MD0102");
    reveal_strlit("MD0103");
    reveal_strlit("MD0201");
    reveal_strlit("MD0202");
    reveal_strlit("MD0301");
    reveal_strlit("MD0302");
    reveal_strlit("MD0303");
    crate::lexer::lemma_lexer_codes_valid();
    crate::parser::lemma_parser_codes_valid();
    if is_syntax_diagnostic(d) && is_resolver_diagnostic(d) {
        assert(d.code[3] == '3');
    }
}

/// Resolver output.
#[derive(Debug)]
pub struct ResolveResult {
    /// HIR package produced from parsed inputs.
    pub package: HirPackage,
    /// Parser and resolver diagnostics in stable order.
    pub diagnostics: Vec<Diagnostic>,
}

/// The ids of a sequence of sources.
pub open spec fn source_ids(sources: Seq<&SourceFile>) -> Seq<usize> {
    sources.map_values(|s: &SourceFile| s@.id@)
}

/// What the package of every resolver result satisfies for sources with the given ids: one
/// module per source, in order, each with its source id; symbols numbered by position, starting
/// with one module symbol per module.
pub open spec fn resolved_package_wf(p: HirPackage, ids: Seq<usize>) -> bool {
    let modules = p.modules@;
    let symbols = p.symbols@;
    &&& modules.len() == ids.len()
    &&& forall|i: int|
        0 <= i < modules.len() ==> (#[trigger] modules[i]).id@ == i && modules[i].source_id@
            == ids[i]
    &&& symbols.len() >= modules.len()
    &&& forall|i: int| 0 <= i < symbols.len() ==> (#[trigger] symbols[i]).id@ == i
    &&& forall|i: int|
        0 <= i < modules.len() ==> {
            &&& (#[trigger] symbols[i]).kind == SymbolKind::Module
            &&& symbols[i].owner@ == i
            &&& symbols[i].item is None
            &&& string_views(symbols[i].path@) == string_views(modules[i].path@)
        }
}

/// What every resolver result satisfies for sources with the given ids: its package is
/// well formed, and its diagnostics are syntax diagnostics followed by resolver diagnostics.
pub open spec fn resolve_result_wf(r: ResolveResult, ids: Seq<usize>) -> bool {
    let d = r.diagnostics@;
    &&& resolved_package_wf(r.package, ids)
    &&& forall|k: int|
        0 <= k < d.len() ==> is_syntax_diagnostic(#[trigger] d[k]@) || is_resolver_diagnostic(
            d[k]@,
        )
    &&& forall|j: int, k: int|
        0 <= j < k < d.len() && is_resolver_diagnostic(#[trigger] d[j]@) ==> is_resolver_diagnostic(
            #[trigger] d[k]@,
        )
}

/// Name resolver for one compiler session.
#[derive(Clone, Copy, Debug, Default, PartialEq, Eq, Structural)]
pub struct Resolver;

impl Resolver {
    /// Creates a resolver.
    pub fn new() -> (r: Self)
        ensures
            r == (Resolver),
    {
        Resolver
    }

    /// Parses and resolves one source file.
    pub fn resolve_source(&self, source: &SourceFile) -> (r: ResolveResult)
        ensures
            resolve_result_wf(r, seq![source@.id@]),
            exists|ds: Seq<DiagnosticView>|
                #[trigger] parse_reports(*source, ds) && diagnostic_views(r.diagnostics@).len() >= ds.len()
                    && diagnostic_views(r.diagnostics@).take(ds.len() as int) == ds,
    {
        let sources: Vec<&SourceFile> = vec![source];
        let r = self.resolve_sources(sources.as_slice());
        proof {
            assert(source_ids(sources@) =~= seq![source@.id@]);
            let parts = choose|parts: Seq<Seq<DiagnosticView>>|
                #![trigger concat_diags(parts)]
                parts.len() == sources@.len() && (forall|i: int|
                    0 <= i < parts.len() ==> parse_reports(*sources@[i], #[trigger] parts[i]))
                    && diagnostic_views(r.diagnostics@).len() >= concat_diags(parts).len() && diagnostic_views(
                    r.diagnostics@,
                ).take(concat_diags(parts).len() as int) == concat_diags(parts);
            assert(parts.drop_last() =~= Seq::<Seq<DiagnosticView>>::empty());
            assert(concat_diags(parts.drop_last()) == Seq::<DiagnosticView>::empty());
            assert(parts.last() == parts[0]);
            assert(concat_diags(parts) =~= parts[0]);
            assert(parse_reports(*sources@[0], parts[0]));
        }
        r
    }

    /// Parses and resolves a set of source files as one package.
    pub fn resolve_sources(&self, sources: &[&SourceFile]) -> (r: ResolveResult)
        ensures
            resolve_result_wf(r, source_ids(sources@)),
            exists|parts: Seq<Seq<DiagnosticView>>|
                #![trigger concat_diags(parts)]
                parts.len() == sources@.len() && (forall|i: int|
                    0 <= i < parts.len() ==> parse_reports(*sources@[i], #[trigger] parts[i]))
                    && diagnostic_views(r.diagnostics@).len() >= concat_diags(parts).len() && diagnostic_views(
                    r.diagnostics@,
                ).take(concat_diags(parts).len() as int) == concat_diags(parts),
    {
        let mut parsed: Vec<ParseResult> = Vec::new();
        let mut diagnostics: Vec<Diagnostic> = Vec::new();
        let ghost mut parts: Seq<Seq<DiagnosticView>> = Seq::empty();
        proof {
            assert(diagnostic_views(diagnostics@) =~= Seq::<DiagnosticView>::empty());
        }
        let mut i: usize = 0;
        while i < sources.len()
            invariant
                i <= sources@.len(),
                parsed@.len() == i,
                forall|k: int|
                    0 <= k < diagnostics@.len() ==> is_syntax_diagnostic(
                        #[trigger] diagnostics@[k]@,
                    ),
                parts.len() == i,
                forall|k: int| 0 <= k < i ==> parse_reports(*sources@[k], #[trigger] parts[k]),
                diagnostic_views(diagnostics@) == concat_diags(parts),
            decreases sources@.len() - i,
        {
            let result = parse_source(sources[i]);
            let ParseResult { ast, diagnostics: unit_diagnostics } = result;
            let mut unit_diagnostics = unit_diagnostics;
            let ghost before = diagnostics@;
            let ghost added = unit_diagnostics@;
            diagnostics.append(&mut unit_diagnostics);
            proof {
                assert forall|k: int| 0 <= k < diagnostics@.len() implies is_syntax_diagnostic(
                    #[trigger] diagnostics@[k]@,
                ) by {
                    if k >= before.len() {
                        assert(diagnostics@[k] == added[k - before.len()]);
                    }
                }
                let old_parts = parts;
                parts = parts.push(diagnostic_views(added));
                assert(parts.drop_last() =~= old_parts);
                assert(diagnostic_views(diagnostics@) =~= diagnostic_views(before) + diagnostic_views(added));
                assert forall|k: int| 0 <= k < i + 1 implies parse_reports(*sources@[k], #[trigger] parts[k]) by {
                    if k < i {
                        assert(parts[k] == old_parts[k]);
                    }
                }
            }
            parsed.push(ParseResult { ast, diagnostics: Vec::new() });
            i = i + 1;
        }
        let session = ResolverSession::new(sources);
        let ghost front = diagnostics@;
        let r = session.resolve(&parsed, diagnostics);
        proof {
            assert(diagnostic_views(r.diagnostics@).take(front.len() as int) =~= diagnostic_views(front));
        }
        r
    }
}

/// Parses and resolves one source file.
pub fn resolve_source(source: &SourceFile) -> (r: ResolveResult)
    ensures
        resolve_result_wf(r, seq![source@.id@]),
        exists|ds: Seq<DiagnosticView>|
            #[trigger] parse_reports(*source, ds) && diagnostic_views(r.diagnostics@).len() >= ds.len()
                && diagnostic_views(r.diagnostics@).take(ds.len() as int) == ds,
{
    Resolver::new().resolve_source(source)
}

/// Parses and resolves a set of source files as one package.
pub fn resolve_sources(sources: &[&SourceFile]) -> (r: ResolveResult)
    ensures
        resolve_result_wf(r, source_ids(sources@)),
        exists|parts: Seq<Seq<DiagnosticView>>|
            #![trigger concat_diags(parts)]
            parts.len() == sources@.len() && (forall|i: int|
                0 <= i < parts.len() ==> parse_reports(*sources@[i], #[trigger] parts[i]))
                && diagnostic_views(r.diagnostics@).len() >= concat_diags(parts).len() && diagnostic_views(
                r.diagnostics@,
            ).take(concat_diags(parts).len() as int) == concat_diags(parts),
{
    Resolver::new().resolve_sources(sources)
}

// ---------------------------------------------------------------------------
// Names
// ---------------------------------------------------------------------------

/// The diagnostic sequences one after another.
pub open spec fn concat_diags(parts: Seq<Seq<DiagnosticView>>) -> Seq<DiagnosticView>
    decreases parts.len(),
{
    if parts.len() == 0 {
        Seq::empty()
    } else {
        concat_diags(parts.drop_last()) + parts.last()
    }
}

/// Index of the last occurrence of `c`, or -1.
pub open spec fn last_index_of(s: Seq<char>, c: char) -> int
    decreases s.len(),
{
    if s.len() == 0 {
        -1
    } else if s.last() == c {
        s.len() - 1
    } else {
        last_index_of(s.drop_last(), c)
    }
}

/// Index of the first occurrence of `c` at or after `from`, or -1.
pub open spec fn index_of_from(s: Seq<char>, c: char, from: int) -> int
    decreases s.len() - from,
{
    if from < 0 || from >= s.len() {
        -1
    } else if s[from] == c {
        from
    } else {
        index_of_from(s, c, from + 1)
    }
}

/// `-` replaced by `_`.
pub open spec fn dashes_to_underscores(s: Seq<char>) -> Seq<char> {
    s.map_values(
        |c: char|
            if c == '-' {
                '_'
            } else {
                c
            },
    )
}

/// Module name of a file without a `module` declaration: the file name after the last `/`, up to
/// its first `.`, with `-` replaced by `_`; the whole name with `-` replaced when there is no `.`.
pub open spec fn default_module_name_spec(name: Seq<char>) -> Seq<char> {
    let base = name.skip(last_index_of(name, '/') + 1);
    let dot = index_of_from(base, '.', 0);
    if dot >= 0 {
        dashes_to_underscores(base.take(dot))
    } else {
        dashes_to_underscores(name)
    }
}

proof fn lemma_last_index_of(s: Seq<char>, c: char)
    ensures
        -1 <= last_index_of(s, c) < s.len(),
        last_index_of(s, c) >= 0 ==> s[last_index_of(s, c)] == c,
        forall|k: int| last_index_of(s, c) < k < s.len() ==> s[k] != c,
    decreases s.len(),
{
    if s.len() > 0 && s.last() != c {
        let t = s.drop_last();
        lemma_last_index_of(t, c);
        assert forall|k: int| last_index_of(s, c) < k < s.len() implies s[k] != c by {
            if k < s.len() - 1 {
                assert(s[k] == t[k]);
            }
        }
        if last_index_of(s, c) >= 0 {
            assert(s[last_index_of(s, c)] == t[last_index_of(t, c)]);
        }
    }
}

proof fn lemma_index_of_from(s: Seq<char>, c: char, from: int)
    requires
        0 <= from,
    ensures
        index_of_from(s, c, from) == -1 || from <= index_of_from(s, c, from) < s.len(),
        index_of_from(s, c, from) >= 0 ==> s[index_of_from(s, c, from)] == c,
        index_of_from(s, c, from) == -1 ==> forall|k: int| from <= k < s.len() ==> s[k] != c,
        index_of_from(s, c, from) >= 0 ==> forall|k: int|
            from <= k < index_of_from(s, c, from) ==> s[k] != c,
    decreases s.len() - from,
{
    if from < s.len() && s[from] != c {
        lemma_index_of_from(s, c, from + 1);
    }
}

fn replace_dashes(text: &str, chars: &Vec<char>, from: usize, to: usize) -> (r: String)
    requires
        from <= to <= chars@.len(),
        chars@ == text@,
    ensures
        r@ == dashes_to_underscores(chars@.subrange(from as int, to as int)),
{
    let mut out = String::new();
    let mut k: usize = from;
    proof {
        assert(out@ =~= dashes_to_underscores(chars@.subrange(from as int, from as int)));
    }
    while k < to
        invariant
            from <= k <= to <= chars@.len(),
            chars@ == text@,
            out@ == dashes_to_underscores(chars@.subrange(from as int, k as int)),
        decreases to - k,
    {
        let c = chars[k];
        let ghost before = out@;
        if c == '-' {
            out.append("_");
            proof {
                reveal_strlit("_");
            }
        } else {
            out.append(text.substring_char(k, k + 1));
            proof {
                assert(text@.subrange(k as int, k + 1) =~= seq![c]);
            }
        }
        proof {
            assert(dashes_to_underscores(chars@.subrange(from as int, k + 1)) =~= dashes_to_underscores(
                chars@.subrange(from as int, k as int),
            ).push(
                if c == '-' {
                    '_'
                } else {
                    c
                },
            ));
            assert(out@ =~= before.push(
                if c == '-' {
                    '_'
                } else {
                    c
                },
            ));
        }
        k = k + 1;
    }
    out
}

/// Module name of a file without a `module` declaration.
fn default_module_name(source: &SourceFile) -> (r: String)
    ensures
        r@ == default_module_name_spec(source@.name),
{
    let name = source.name();
    let chars = crate::text::collect_chars(name);
    let n = chars.len();
    let ghost s = chars@;
    proof {
        lemma_last_index_of(s, '/');
    }
    let mut k: usize = n;
    while k > 0 && chars[k - 1] != '/'
        invariant
            k <= n,
            n == s.len(),
            s == chars@,
            forall|j: int| k <= j < n ==> s[j] != '/',
        decreases k,
    {
        k = k - 1;
    }
    let base_start = k;
    proof {
        if base_start > 0 {
            assert(s[base_start - 1] == '/');
            assert(last_index_of(s, '/') == base_start - 1) by {
                lemma_last_index_of(s, '/');
                if last_index_of(s, '/') < base_start - 1 {
                    assert(s[base_start - 1] != '/');
                }
            }
        } else {
            assert(forall|j: int| 0 <= j < n ==> s[j] != '/');
            assert(last_index_of(s, '/') == -1) by {
                lemma_last_index_of(s, '/');
                if last_index_of(s, '/') >= 0 {
                    assert(s[last_index_of(s, '/')] == '/');
                }
            }
        }
    }
    let ghost base = s.skip(base_start as int);
    let mut dot: usize = base_start;
    while dot < n && chars[dot] != '.'
        invariant
            base_start <= dot <= n,
            n == s.len(),
            s == chars@,
            forall|j: int| base_start <= j < dot ==> s[j] != '.',
        decreases n - dot,
    {
        dot = dot + 1;
    }
    proof {
        lemma_index_of_from(base, '.', 0);
        let d = index_of_from(base, '.', 0);
        if dot < n {
            assert(base[dot - base_start] == '.');
            if d >= 0 && d < dot - base_start {
                assert(s[base_start + d] == '.');
            }
            if d == -1 {
                assert(base[dot - base_start] != '.');
            }
        } else {
            if d >= 0 {
                assert(s[base_start + d] == '.');
            }
        }
    }
    if dot < n {
        let r = replace_dashes(name, &chars, base_start, dot);
        proof {
            assert(s.subrange(base_start as int, dot as int) =~= base.take(dot - base_start));
        }
        r
    } else {
        let r = replace_dashes(name, &chars, 0, n);
        proof {
            assert(s.subrange(0, n as int) =~= s);
        }
        r
    }
}

/// Path segments joined with `.`, the key under which a path is looked up.
fn path_key(path: &Vec<String>) -> (r: String)
    ensures
        r@ == join(string_views(path@), "."@),
{
    let mut s = String::new();
    push_join(&mut s, path, ".");
    proof {
        assert(s@ =~= join(string_views(path@), "."@));
    }
    s
}

pub(crate) fn copy_strings(v: &Vec<String>) -> (r: Vec<String>)
    ensures
        string_views(r@) == string_views(v@),
{
    let mut out: Vec<String> = Vec::new();
    let mut i: usize = 0;
    while i < v.len()
        invariant
            i <= v@.len(),
            string_views(out@) == string_views(v@).take(i as int),
        decreases v@.len() - i,
    {
        let ghost before = out@;
        let s = v[i].clone();
        out.push(s);
        proof {
            assert(string_views(out@) =~= string_views(before).push(s@));
            assert(string_views(v@).take(i + 1) =~= string_views(v@).take(i as int).push(v@[i as int]@));
        }
        i = i + 1;
    }
    proof {
        assert(string_views(v@).take(v@.len() as int) =~= string_views(v@));
    }
    out
}

/// Name of an item's symbol, with a generated name when the parser found none.
fn missing_name(prefix: &str, index: usize) -> (r: String)
    ensures
        r@ == prefix@ + decimal(index as nat) + ">"@,
{
    let mut s = owned(prefix);
    push_decimal(&mut s, index);
    s.append(">");
    s
}

fn name_or(name: &Option<String>, prefix: &str, index: usize) -> (r: String)
    ensures
        name matches Some(n) ==> r@ == n@,
        name is None ==> r@ == prefix@ + decimal(index as nat) + ">"@,
{
    match name {
        Some(n) => n.clone(),
        None => missing_name(prefix, index),
    }
}

/// The kind of symbol an item declares.
spec fn item_symbol_kind(item: Item) -> SymbolKind {
    match item {
        Item::Function(_) => SymbolKind::Function,
        Item::Struct(_) => SymbolKind::Struct,
        Item::Enum(_) => SymbolKind::Enum,
        Item::Trait(_) => SymbolKind::Trait,
        Item::Impl(_) => SymbolKind::Impl,
    }
}

fn item_symbol_parts(item: &Item, index: usize) -> (r: (SymbolKind, String, TextRange))
    ensures
        r.0 == item_symbol_kind(*item),
        r.2 == crate::ast::item_span(*item),
{
    match item {
        Item::Function(function) => (
            SymbolKind::Function,
            name_or(&function.name, "<missing_fn_", index),
            function.span,
        ),
        Item::Struct(s) => (SymbolKind::Struct, name_or(&s.name, "<missing_struct_", index), s.span),
        Item::Enum(e) => (SymbolKind::Enum, name_or(&e.name, "<missing_enum_", index), e.span),
        Item::Trait(t) => (SymbolKind::Trait, name_or(&t.name, "<missing_trait_", index), t.span),
        Item::Impl(i) => (SymbolKind::Impl, missing_name("<impl_", index), i.span),
    }
}

fn item_span(item: &Item) -> (r: TextRange)
    ensures
        r == crate::ast::item_span(*item),
{
    match item {
        Item::Function(function) => function.span,
        Item::Struct(s) => s.span,
        Item::Enum(e) => e.span,
        Item::Trait(t) => t.span,
        Item::Impl(i) => i.span,
    }
}

fn or_missing(name: &Option<String>) -> (r: String)
    ensures
        r@ == crate::ast::name_text(*name),
{
    match name {
        Some(n) => n.clone(),
        None => owned("<missing>"),
    }
}

/// Builds a resolver diagnostic with its note and, when the range resolves, its span.
fn resolver_diagnostic(source: &SourceFile, code: &str, span: TextRange, message: String, note: &str) -> (r:
    Diagnostic)
    requires
        code@ == MD_DUPLICATE_NAME@ || code@ == MD_UNRESOLVED_NAME@ || code@ == MD_INVALID_IMPORT@,
    ensures
        is_resolver_diagnostic(r@),
        r@.code == code@,
        r@.message == message@,
        r@.notes == seq![note@],
{
    proof {
        lemma_resolver_codes_valid();
    }
    let code = DiagnosticCode::new(code).unwrap();
    let diagnostic = Diagnostic::new(code, DiagnosticSeverity::Error, message.as_str());
    let diagnostic = diagnostic.with_note(note);
    let r = match DiagnosticSpan::from_source(source, span) {
        Some(resolved_span) => diagnostic.with_span(resolved_span),
        None => diagnostic,
    };
    proof {
        assert(r@.notes =~= seq![note@]);
    }
    r
}

/// `prefix + "`" + name + "`"`.
fn quoted_message(prefix: &str, name: &str) -> (r: String)
    ensures
        r@ == prefix@ + name@ + "`"@,
{
    let mut message = owned(prefix);
    message.append(name);
    message.append("`");
    message
}

fn push_resolver_diagnostic(diags: &mut Vec<Diagnostic>, d: Diagnostic)
    requires
        is_resolver_diagnostic(d@),
    ensures
        diags_extend(final(diags)@, old(diags)@),
        final(diags)@.len() == old(diags)@.len() + 1,
        final(diags)@.last()@ == d@,
{
    diags.push(d);
}

// ---------------------------------------------------------------------------
// Scopes
// ---------------------------------------------------------------------------

/// The value of the first entry named `name`, if any.
pub open spec fn assoc_find<T>(entries: Seq<(String, T)>, name: Seq<char>) -> Option<T>
    decreases entries.len(),
{
    if entries.len() == 0 {
        None
    } else if entries[0].0@ == name {
        Some(entries[0].1)
    } else {
        assoc_find(entries.drop_first(), name)
    }
}

/// Looks up a name in an association list of names.
fn assoc_get<T: Copy>(entries: &Vec<(String, T)>, name: &str) -> (r: Option<T>)
    ensures
        r matches Some(v) ==> exists|k: int|
            0 <= k < entries@.len() && (#[trigger] entries@[k]).0@ == name@ && entries@[k].1 == v,
        r is None ==> forall|k: int| 0 <= k < entries@.len() ==> (#[trigger] entries@[k]).0@ != name@,
        r == assoc_find(entries@, name@),
{
    let mut i: usize = 0;
    proof {
        assert(entries@.subrange(0, entries@.len() as int) =~= entries@);
    }
    while i < entries.len()
        invariant
            i <= entries@.len(),
            forall|k: int| 0 <= k < i ==> (#[trigger] entries@[k]).0@ != name@,
            assoc_find(entries@, name@) == assoc_find(entries@.subrange(i as int, entries@.len() as int), name@),
        decreases entries@.len() - i,
    {
        proof {
            assert(entries@.subrange(i as int, entries@.len() as int).drop_first() =~= entries@.subrange(
                i + 1,
                entries@.len() as int,
            ));
        }
        if str_eq(entries[i].0.as_str(), name) {
            return Some(entries[i].1);
        }
        i = i + 1;
    }
    None
}

/// Binds a name to a value, replacing an earlier binding; returns whether one existed.
proof fn lemma_assoc_find_first<T>(entries: Seq<(String, T)>, name: Seq<char>, i: int)
    requires
        0 <= i < entries.len(),
        entries[i].0@ == name,
        forall|j: int| 0 <= j < i ==> entries[j].0@ != name,
    ensures
        assoc_find(entries, name) == Some(entries[i].1),
    decreases i,
{
    if i > 0 {
        assert(entries[0].0@ != name);
        let rest = entries.drop_first();
        assert forall|j: int| 0 <= j < i - 1 implies rest[j].0@ != name by {
            assert(rest[j] == entries[j + 1]);
        }
        lemma_assoc_find_first(rest, name, i - 1);
    }
}

fn assoc_insert<T: Copy>(entries: &mut Vec<(String, T)>, name: &str, value: T) -> (existed: bool)
    ensures
        final(entries)@.len() >= old(entries)@.len(),
        forall|k: int|
            0 <= k < final(entries)@.len() ==> (#[trigger] final(entries)@[k]).1 == value || (k
                < old(entries)@.len() && final(entries)@[k].1 == old(entries)@[k].1),
        existed ==> exists|i: int|
            0 <= i < old(entries)@.len() && (#[trigger] old(entries)@[i]).0@ == name@ && (forall|j: int|
                0 <= j < i ==> old(entries)@[j].0@ != name@) && final(entries)@.len()
                == old(entries)@.len() && final(entries)@[i].0@ == name@ && final(entries)@[i].1
                == value && forall|k: int|
                0 <= k < old(entries)@.len() && k != i ==> final(entries)@[k] == old(entries)@[k],
        !existed ==> (forall|k: int| 0 <= k < old(entries)@.len() ==> (#[trigger] old(entries)@[k]).0@ != name@)
            && final(entries)@.len() == old(entries)@.len() + 1 && final(entries)@.last().0@ == name@
            && final(entries)@.last().1 == value && final(entries)@.drop_last() == old(entries)@,
{
    let mut i: usize = 0;
    while i < entries.len()
        invariant
            i <= entries@.len(),
            entries@ == old(entries)@,
            forall|j: int| 0 <= j < i ==> (#[trigger] entries@[j]).0@ != name@,
        decreases entries@.len() - i,
    {
        if str_eq(entries[i].0.as_str(), name) {
            let key = entries[i].0.clone();
            entries.set(i, (key, value));
            return true;
        }
        i = i + 1;
    }
    entries.push((owned(name), value));
    false
}

fn contains_name(names: &Vec<String>, name: &str) -> (r: bool)
    ensures
        r == exists|k: int| 0 <= k < names@.len() && (#[trigger] names@[k])@ == name@,
{
    let mut i: usize = 0;
    while i < names.len()
        invariant
            i <= names@.len(),
            forall|k: int| 0 <= k < i ==> (#[trigger] names@[k])@ != name@,
        decreases names@.len() - i,
    {
        if str_eq(names[i].as_str(), name) {
            return true;
        }
        i = i + 1;
    }
    false
}

/// Locals and name bindings of one function body.
struct FunctionScope {
    locals: Vec<HirLocal>,
    bindings: Vec<(String, LocalId)>,
}

impl FunctionScope {
    fn new() -> (r: Self) {
        FunctionScope { locals: Vec::new(), bindings: Vec::new() }
    }

    fn copy_bindings(&self) -> (r: Vec<(String, LocalId)>)
        ensures
            r@.len() == self.bindings@.len(),
            forall|k: int|
                0 <= k < r@.len() ==> (#[trigger] r@[k]).0@ == self.bindings@[k].0@ && r@[k].1
                    == self.bindings@[k].1,
    {
        let mut out: Vec<(String, LocalId)> = Vec::new();
        let mut i: usize = 0;
        while i < self.bindings.len()
            invariant
                i <= self.bindings@.len(),
                out@.len() == i,
                forall|k: int|
                    0 <= k < i ==> (#[trigger] out@[k]).0@ == self.bindings@[k].0@ && out@[k].1
                        == self.bindings@[k].1,
            decreases self.bindings@.len() - i,
        {
            let key = self.bindings[i].0.clone();
            out.push((key, self.bindings[i].1));
            i = i + 1;
        }
        out
    }

    /// Allocates a local; a name already bound in this function is reported as a duplicate.
    fn declare(
        &mut self,
        diagnostics: &mut Vec<Diagnostic>,
        source: &SourceFile,
        name: &str,
        span: TextRange,
        kind: LocalKind,
    ) -> (r: LocalId)
        ensures
            diags_extend(final(diagnostics)@, old(diagnostics)@),
            r@ == old(self).locals@.len(),
            final(self).locals@.len() == old(self).locals@.len() + 1,
    {
        let local = LocalId::new(self.locals.len());
        if assoc_insert(&mut self.bindings, name, local) {
            let message = quoted_message("重复定义名称 `", name);
            let d = resolver_diagnostic(
                source,
                MD_DUPLICATE_NAME,
                span,
                message,
                "同一函数作用域中的名称必须唯一",
            );
            push_resolver_diagnostic(diagnostics, d);
        }
        self.locals.push(HirLocal { id: local, name: owned(name), kind, span });
        local
    }
}

// ---------------------------------------------------------------------------
// Session
// ---------------------------------------------------------------------------

struct ModuleBuild {
    id: ModuleId,
    source_index: usize,
    path: Vec<String>,
    imports: Vec<HirImport>,
    visible: Vec<(String, SymbolId)>,
}

/// The number of named variants among the first `n`.
spec fn named_variant_count(variants: Seq<EnumVariant>, n: int) -> nat
    decreases n,
{
    if n <= 0 {
        0
    } else {
        named_variant_count(variants, n - 1) + if variants[n - 1].name is Some {
            1nat
        } else {
            0nat
        }
    }
}

/// From `before` to `after`, `count` variant symbols of item `item_id` were appended: the
/// symbol table and the variant table each grew by `count` entries, earlier entries kept, each
/// new symbol a variant owned by the module and pointing at the item, each new variant record
/// naming the module, the item and the symbol allocated for it, in order.
spec fn variants_declared(
    before: ResolverSession,
    after: ResolverSession,
    module_index: usize,
    item_index: usize,
    item_id: ItemId,
    count: nat,
) -> bool {
    let s0 = before.symbols@.len();
    let v0 = before.variant_symbols@.len();
    &&& after.symbols@.len() == s0 + count
    &&& after.variant_symbols@.len() == v0 + count
    &&& forall|i: int| 0 <= i < s0 ==> #[trigger] after.symbols@[i] == before.symbols@[i]
    &&& forall|j: int| 0 <= j < v0 ==> #[trigger] after.variant_symbols@[j] == before.variant_symbols@[j]
    &&& forall|i: int|
        s0 <= i < after.symbols@.len() ==> (#[trigger] after.symbols@[i]).kind == SymbolKind::Variant
            && after.symbols@[i].item == Some(item_id) && after.symbols@[i].owner == before.modules@[module_index as int].id
    &&& forall|j: int|
        v0 <= j < after.variant_symbols@.len() ==> (#[trigger] after.variant_symbols@[j]).0 == module_index
            && after.variant_symbols@[j].1 == item_index && after.variant_symbols@[j].3@ == s0 + (j - v0)
}

/// `after` is `before` with one record per import among the first `n` appended, each
/// carrying the import's span and the symbol its dotted path names in `global_paths`, if any.
spec fn imports_resolved(
    global_paths: Seq<(String, SymbolId)>,
    before: Seq<HirImport>,
    imports: Seq<ImportDecl>,
    after: Seq<HirImport>,
    n: int,
) -> bool {
    &&& after.len() == before.len() + n
    &&& forall|j: int| 0 <= j < before.len() ==> #[trigger] after[j] == before[j]
    &&& forall|k: int|
        0 <= k < n ==> (#[trigger] after[before.len() + k]).resolved == assoc_find(
            global_paths,
            join(string_views(imports[k].path@), "."@),
        ) && after[before.len() + k].span == imports[k].span
}

/// The number of items in the first `m` parsed modules.
spec fn item_count(parsed: Seq<ParseResult>, m: int) -> nat
    decreases m,
{
    if m <= 0 {
        0
    } else {
        item_count(parsed, m - 1) + parsed[m - 1].ast.items@.len()
    }
}

proof fn lemma_item_count_mono(parsed: Seq<ParseResult>, a: int, b: int)
    requires
        a <= b,
    ensures
        item_count(parsed, a) <= item_count(parsed, b),
    decreases b - a,
{
    if a < b {
        lemma_item_count_mono(parsed, a, b - 1);
    }
}

/// Where the record of item `i` of module `m` stands, after `base` earlier records.
spec fn item_slot(base: int, parsed: Seq<ParseResult>, m: int, i: int) -> int {
    base + item_count(parsed, m) + i
}

/// From `before` to `after`, every item of the first `m` modules, and the first `i` items of
/// module `m`, got a record in order: its module and position, a fresh item id numbered by the
/// record's place, and a symbol of the item's kind that points back at that id. Earlier
/// records and symbols are kept.
spec fn items_declared(before: ResolverSession, after: ResolverSession, parsed: Seq<ParseResult>, m: int, i: int) -> bool {
    let base = before.item_symbols@.len() as int;
    &&& after.item_symbols@.len() == item_slot(base, parsed, m, i)
    &&& after.symbols@.len() >= before.symbols@.len()
    &&& forall|k: int| 0 <= k < before.symbols@.len() ==> #[trigger] after.symbols@[k] == before.symbols@[k]
    &&& forall|j: int| 0 <= j < base ==> #[trigger] after.item_symbols@[j] == before.item_symbols@[j]
    &&& forall|mm: int, ii: int|
        0 <= mm <= m && 0 <= ii < parsed[mm].ast.items@.len() && (mm < m || ii < i) ==> {
            let e = #[trigger] after.item_symbols@[item_slot(base, parsed, mm, ii)];
            &&& e.0 == mm
            &&& e.1 == ii
            &&& e.3@ == item_slot(base, parsed, mm, ii)
            &&& e.2@ < after.symbols@.len()
            &&& after.symbols@[e.2@ as int].kind == item_symbol_kind(parsed[mm].ast.items@[ii])
            &&& after.symbols@[e.2@ as int].item == Some(e.3)
        }
}

struct ResolverSession<'source> {
    sources: &'source [&'source SourceFile],
    modules: Vec<ModuleBuild>,
    symbols: Vec<Symbol>,
    global_paths: Vec<(String, SymbolId)>,
    item_symbols: Vec<(usize, usize, SymbolId, ItemId)>,
    variant_symbols: Vec<(usize, usize, usize, SymbolId)>,
}

impl<'source> ResolverSession<'source> {
    /// Symbols are numbered by position, and every recorded symbol exists.
    spec fn wf(&self) -> bool {
        &&& self.modules@.len() <= self.sources@.len()
        &&& forall|i: int| 0 <= i < self.symbols@.len() ==> (#[trigger] self.symbols@[i]).id@ == i
        &&& forall|k: int|
            0 <= k < self.global_paths@.len() ==> (#[trigger] self.global_paths@[k]).1@
                < self.symbols@.len()
        &&& forall|m: int|
            0 <= m < self.modules@.len() ==> {
                &&& (#[trigger] self.modules@[m]).id@ == m
                &&& self.modules@[m].source_index == m
                &&& forall|k: int|
                    0 <= k < self.modules@[m].visible@.len() ==> (
                    #[trigger] self.modules@[m].visible@[k]).1@ < self.symbols@.len()
            }
    }

    /// The module symbols come first, one per module, in module order.
    spec fn modules_declared(&self) -> bool {
        &&& self.modules@.len() == self.sources@.len()
        &&& self.symbols@.len() >= self.modules@.len()
        &&& forall|i: int|
            0 <= i < self.modules@.len() ==> {
                &&& (#[trigger] self.symbols@[i]).kind == SymbolKind::Module
                &&& self.symbols@[i].owner@ == i
                &&& self.symbols@[i].item is None
                &&& string_views(self.symbols@[i].path@) == string_views(self.modules@[i].path@)
            }
    }

    fn new(sources: &'source [&'source SourceFile]) -> (r: Self)
        ensures
            r.wf(),
            r.sources@ == sources@,
            r.modules@.len() == 0,
            r.symbols@.len() == 0,
    {
        ResolverSession {
            sources,
            modules: Vec::new(),
            symbols: Vec::new(),
            global_paths: Vec::new(),
            item_symbols: Vec::new(),
            variant_symbols: Vec::new(),
        }
    }

    fn resolve(self, parsed: &Vec<ParseResult>, diagnostics: Vec<Diagnostic>) -> (r: ResolveResult)
        requires
            self.wf(),
            self.modules@.len() == 0,
            self.symbols@.len() == 0,
            parsed@.len() == self.sources@.len(),
            forall|k: int|
                0 <= k < diagnostics@.len() ==> is_syntax_diagnostic(#[trigger] diagnostics@[k]@),
        ensures
            resolve_result_wf(r, source_ids(self.sources@)),
            r.diagnostics@.len() >= diagnostics@.len(),
            r.diagnostics@.take(diagnostics@.len() as int) == diagnostics@,
    {
        let mut session = self;
        let mut diagnostics = diagnostics;
        let ghost syntax = diagnostics@;
        session.declare_modules(parsed, &mut diagnostics);
        session.declare_items(parsed, &mut diagnostics);
        session.resolve_imports(parsed, &mut diagnostics);
        let modules = session.lower_package(parsed, &mut diagnostics);
        let package = HirPackage { modules, symbols: session.symbols };
        proof {
            let d = diagnostics@;
            assert forall|k: int| 0 <= k < d.len() implies is_syntax_diagnostic(#[trigger] d[k]@)
                || is_resolver_diagnostic(d[k]@) by {
                if k < syntax.len() {
                    assert(d[k] == syntax[k]);
                }
            }
            assert(d.take(syntax.len() as int) =~= syntax);
            assert forall|j: int, k: int|
                0 <= j < k < d.len() && is_resolver_diagnostic(
                    #[trigger] d[j]@,
                ) implies is_resolver_diagnostic(#[trigger] d[k]@) by {
                if j < syntax.len() {
                    assert(d[j] == syntax[j]);
                    lemma_syntax_not_resolver(d[j]@);
                }
            }
        }
        ResolveResult { package, diagnostics }
    }

    fn alloc_symbol(
        &mut self,
        kind: SymbolKind,
        path: Vec<String>,
        owner: ModuleId,
        item: Option<ItemId>,
        span: TextRange,
    ) -> (r: SymbolId)
        requires
            old(self).wf(),
        ensures
            final(self).wf(),
            r@ == old(self).symbols@.len(),
            final(self).symbols@.len() == old(self).symbols@.len() + 1,
            final(self).symbols@.take(old(self).symbols@.len() as int) == old(self).symbols@,
            forall|i: int|
                0 <= i < old(self).symbols@.len() ==> #[trigger] final(self).symbols@[i] == old(
                    self,
                ).symbols@[i],
            final(self).symbols@.last().kind == kind,
            final(self).symbols@.last().owner == owner,
            final(self).symbols@.last().item == item,
            final(self).symbols@.last().path == path,
            final(self).sources == old(self).sources,
            final(self).modules == old(self).modules,
            final(self).global_paths == old(self).global_paths,
            final(self).item_symbols == old(self).item_symbols,
            final(self).variant_symbols == old(self).variant_symbols,
    {
        let id = SymbolId::new(self.symbols.len());
        self.symbols.push(Symbol { id, kind, path, owner, item, span });
        proof {
            assert(self.symbols@.take(old(self).symbols@.len() as int) =~= old(self).symbols@);
        }
        id
    }
}

impl<'source> ResolverSession<'source> {
    fn push_duplicate(&self, source_index: usize, span: TextRange, name: &str, diags: &mut Vec<Diagnostic>)
        requires
            source_index < self.sources@.len(),
        ensures
            diags_extend(final(diags)@, old(diags)@),
            final(diags)@.len() == old(diags)@.len() + 1,
            final(diags)@.last()@.code == MD_DUPLICATE_NAME@,
            final(diags)@.last()@.message == "重复定义名称 `"@ + name@ + "`"@,
    {
        let message = quoted_message("重复定义名称 `", name);
        let d = resolver_diagnostic(
            self.sources[source_index],
            MD_DUPLICATE_NAME,
            span,
            message,
            "同一作用域中的名称必须唯一",
        );
        push_resolver_diagnostic(diags, d);
    }

    fn push_unresolved(&self, source_index: usize, span: TextRange, name: &str, diags: &mut Vec<Diagnostic>)
        requires
            source_index < self.sources@.len(),
        ensures
            diags_extend(final(diags)@, old(diags)@),
            final(diags)@.len() == old(diags)@.len() + 1,
    {
        let message = quoted_message("无法解析名称 `", name);
        let d = resolver_diagnostic(
            self.sources[source_index],
            MD_UNRESOLVED_NAME,
            span,
            message,
            "请确认名称已在当前模块中定义，或通过 import 导入",
        );
        push_resolver_diagnostic(diags, d);
    }

    fn push_invalid_import(
        &self,
        source_index: usize,
        span: TextRange,
        name: &str,
        diags: &mut Vec<Diagnostic>,
    )
        requires
            source_index < self.sources@.len(),
        ensures
            diags_extend(final(diags)@, old(diags)@),
            final(diags)@.len() == old(diags)@.len() + 1,
    {
        let message = quoted_message("无效的 import `", name);
        let d = resolver_diagnostic(
            self.sources[source_index],
            MD_INVALID_IMPORT,
            span,
            message,
            "import 路径必须指向当前包中已声明的模块或符号",
        );
        push_resolver_diagnostic(diags, d);
    }

    /// Records a package-wide path unless it is already known.
    fn add_global_path(&mut self, key: &str, symbol: SymbolId)
        requires
            old(self).wf(),
            symbol@ < old(self).symbols@.len(),
        ensures
            final(self).wf(),
            final(self).sources == old(self).sources,
            final(self).modules == old(self).modules,
            final(self).symbols == old(self).symbols,
            final(self).item_symbols == old(self).item_symbols,
            final(self).variant_symbols == old(self).variant_symbols,
    {
        match assoc_get(&self.global_paths, key) {
            Some(_) => {},
            None => {
                self.global_paths.push((owned(key), symbol));
            },
        }
    }

    /// Makes a name visible in a module; a name already visible there is reported as a duplicate.
    fn add_visible_name(
        &mut self,
        module_index: usize,
        name: &str,
        symbol: SymbolId,
        span: TextRange,
        diags: &mut Vec<Diagnostic>,
    )
        requires
            old(self).wf(),
            module_index < old(self).modules@.len(),
            symbol@ < old(self).symbols@.len(),
        ensures
            final(self).wf(),
            diags_extend(final(diags)@, old(diags)@),
            final(self).sources == old(self).sources,
            final(self).modules@.len() == old(self).modules@.len(),
            forall|m: int|
                0 <= m < final(self).modules@.len() ==> (#[trigger] final(self).modules@[m]).path
                    == old(self).modules@[m].path && final(self).modules@[m].imports == old(
                    self,
                ).modules@[m].imports,
            final(self).symbols == old(self).symbols,
            final(self).global_paths == old(self).global_paths,
            final(self).item_symbols == old(self).item_symbols,
            final(self).variant_symbols == old(self).variant_symbols,
            (exists|k: int|
                0 <= k < old(self).modules@[module_index as int].visible@.len()
                    && (#[trigger] old(self).modules@[module_index as int].visible@[k]).0@ == name@) ==> final(diags)@.len()
                == old(diags)@.len() + 1 && final(diags)@.last()@.code == MD_DUPLICATE_NAME@
                && final(diags)@.last()@.message == "重复定义名称 `"@ + name@ + "`"@,
            !(exists|k: int|
                0 <= k < old(self).modules@[module_index as int].visible@.len()
                    && (#[trigger] old(self).modules@[module_index as int].visible@[k]).0@ == name@) ==> final(diags)@
                == old(diags)@,
            assoc_find(final(self).modules@[module_index as int].visible@, name@) == Some(symbol),
    {
        let ghost before = self.modules@[module_index as int].visible@;
        let existed = assoc_insert(&mut self.modules[module_index].visible, name, symbol);
        proof {
            let after = self.modules@[module_index as int].visible@;
            if existed {
                let i = choose|i: int|
                    0 <= i < before.len() && (#[trigger] before[i]).0@ == name@ && (forall|j: int|
                        0 <= j < i ==> before[j].0@ != name@) && after.len() == before.len() && after[i].0@ == name@
                        && after[i].1 == symbol && forall|k: int| 0 <= k < before.len() && k != i ==> after[k] == before[k];
                assert forall|j: int| 0 <= j < i implies after[j].0@ != name@ by {
                    assert(after[j] == before[j]);
                }
                lemma_assoc_find_first(after, name@, i);
            } else {
                let i = after.len() - 1;
                assert forall|j: int| 0 <= j < i implies after[j].0@ != name@ by {
                    assert(after[j] == before[j]);
                }
                lemma_assoc_find_first(after, name@, i);
            }
        }
        if existed {
            self.push_duplicate(module_index, span, name, diags);
        }
    }

    fn declare_modules(&mut self, parsed: &Vec<ParseResult>, diags: &mut Vec<Diagnostic>)
        requires
            old(self).wf(),
            parsed@.len() == old(self).sources@.len(),
            old(self).modules@.len() == 0,
            old(self).symbols@.len() == 0,
        ensures
            final(self).wf(),
            final(self).modules_declared(),
            final(self).symbols@.len() == final(self).modules@.len(),
            final(self).sources == old(self).sources,
            diags_extend(final(diags)@, old(diags)@),
    {
        let mut module_paths: Vec<String> = Vec::new();
        let mut source_index: usize = 0;
        while source_index < parsed.len()
            invariant
                self.wf(),
                self.sources == old(self).sources,
                parsed@.len() == self.sources@.len(),
                source_index <= parsed@.len(),
                self.modules@.len() == source_index,
                self.symbols@.len() == source_index,
                forall|i: int|
                    0 <= i < self.modules@.len() ==> {
                        &&& (#[trigger] self.symbols@[i]).kind == SymbolKind::Module
                        &&& self.symbols@[i].owner@ == i
                        &&& self.symbols@[i].item is None
                        &&& string_views(self.symbols@[i].path@) == string_views(
                            self.modules@[i].path@,
                        )
                    },
                diags_extend(diags@, old(diags)@),
            decreases parsed@.len() - source_index,
        {
            let id = ModuleId::new(self.modules.len());
            let ast = &parsed[source_index].ast;
            let path = match &ast.module {
                Some(module) => {
                    if module.path.len() > 0 {
                        copy_strings(&module.path)
                    } else {
                        vec![default_module_name(self.sources[source_index])]
                    }
                },
                None => vec![default_module_name(self.sources[source_index])],
            };
            let key = path_key(&path);
            let span = ast.span;
            let duplicate_span = match &ast.module {
                Some(module) => module.span,
                None => span,
            };
            let ghost before_diags = diags@;
            let symbol = self.alloc_symbol(SymbolKind::Module, copy_strings(&path), id, None, span);
            if contains_name(&module_paths, key.as_str()) {
                self.push_duplicate(source_index, duplicate_span, key.as_str(), diags);
            } else {
                module_paths.push(key.clone());
            }
            self.add_global_path(key.as_str(), symbol);
            let ghost before_modules = self.modules@;
            let ghost before_symbols = self.symbols@;
            self.modules.push(
                ModuleBuild { id, source_index, path, imports: Vec::new(), visible: Vec::new() },
            );
            proof {
                assert forall|i: int| 0 <= i < self.modules@.len() implies {
                    &&& (#[trigger] self.symbols@[i]).kind == SymbolKind::Module
                    &&& self.symbols@[i].owner@ == i
                    &&& self.symbols@[i].item is None
                    &&& string_views(self.symbols@[i].path@) == string_views(self.modules@[i].path@)
                } by {
                    if i < source_index {
                        assert(self.modules@[i] == before_modules[i]);
                        assert(self.symbols@.take(source_index as int)[i] == self.symbols@[i]);
                    }
                }
            }
            source_index = source_index + 1;
        }
    }

    fn declare_items(&mut self, parsed: &Vec<ParseResult>, diags: &mut Vec<Diagnostic>)
        requires
            old(self).wf(),
            old(self).modules_declared(),
            parsed@.len() == old(self).sources@.len(),
        ensures
            final(self).wf(),
            final(self).modules_declared(),
            final(self).sources == old(self).sources,
            diags_extend(final(diags)@, old(diags)@),
            items_declared(*old(self), *final(self), parsed@, parsed@.len() as int, 0),
    {
        let mut module_index: usize = 0;
        while module_index < parsed.len()
            invariant
                self.wf(),
                self.modules_declared(),
                self.sources == old(self).sources,
                parsed@.len() == self.sources@.len(),
                module_index <= parsed@.len(),
                diags_extend(diags@, old(diags)@),
                items_declared(*old(self), *self, parsed@, module_index as int, 0),
            decreases parsed@.len() - module_index,
        {
            let module_id = self.modules[module_index].id;
            let items = &parsed[module_index].ast.items;
            let mut item_index: usize = 0;
            while item_index < items.len()
                invariant
                    self.wf(),
                    self.modules_declared(),
                    self.sources == old(self).sources,
                    parsed@.len() == self.sources@.len(),
                    module_index < parsed@.len(),
                    items == &parsed@[module_index as int].ast.items,
                    item_index <= items@.len(),
                    module_id@ == module_index,
                    diags_extend(diags@, old(diags)@),
                    items_declared(*old(self), *self, parsed@, module_index as int, item_index as int),
                decreases items@.len() - item_index,
            {
                let item = &items[item_index];
                let ghost prev = *self;
                let item_id = ItemId::new(self.item_symbols.len());
                let (kind, name, span) = item_symbol_parts(item, item_index);
                let mut path = copy_strings(&self.modules[module_index].path);
                path.push(name.clone());
                let symbol = self.alloc_symbol(kind, copy_strings(&path), module_id, Some(item_id), span);
                self.item_symbols.push((module_index, item_index, symbol, item_id));
                self.add_visible_name(module_index, name.as_str(), symbol, span, diags);
                let key = path_key(&path);
                self.add_global_path(key.as_str(), symbol);
                let ghost mid = *self;
                match item {
                    Item::Enum(enum_) => {
                        self.declare_variants(module_index, item_index, item_id, enum_, diags);
                    },
                    _ => {},
                }
                proof {
                    let base = old(self).item_symbols@.len() as int;
                    let m = module_index as int;
                    let i = item_index as int;
                    assert(symbol@ < mid.symbols@.len());
                    assert(self.symbols@[symbol@ as int] == mid.symbols@[symbol@ as int]);
                    assert forall|mm: int, ii: int|
                        0 <= mm <= m && 0 <= ii < parsed@[mm].ast.items@.len() && (mm < m || ii < i + 1) implies {
                        let e = #[trigger] self.item_symbols@[item_slot(base, parsed@, mm, ii)];
                        &&& e.0 == mm
                        &&& e.1 == ii
                        &&& e.3@ == item_slot(base, parsed@, mm, ii)
                        &&& e.2@ < self.symbols@.len()
                        &&& self.symbols@[e.2@ as int].kind == item_symbol_kind(parsed@[mm].ast.items@[ii])
                        &&& self.symbols@[e.2@ as int].item == Some(e.3)
                    } by {
                        if mm < m || ii < i {
                            if mm < m {
                                lemma_item_count_mono(parsed@, mm + 1, m);
                            }
                            let e = prev.item_symbols@[item_slot(base, parsed@, mm, ii)];
                            assert(self.item_symbols@[item_slot(base, parsed@, mm, ii)] == e);
                            assert(self.symbols@[e.2@ as int] == prev.symbols@[e.2@ as int]);
                        }
                    }
                }
                item_index = item_index + 1;
            }
            module_index = module_index + 1;
        }
    }

    fn declare_variants(
        &mut self,
        module_index: usize,
        item_index: usize,
        item_id: ItemId,
        enum_: &EnumDecl,
        diags: &mut Vec<Diagnostic>,
    )
        requires
            old(self).wf(),
            old(self).modules_declared(),
            module_index < old(self).modules@.len(),
        ensures
            final(self).wf(),
            final(self).modules_declared(),
            final(self).sources == old(self).sources,
            diags_extend(final(diags)@, old(diags)@),
            final(self).modules == old(self).modules,
            final(self).item_symbols == old(self).item_symbols,
            enum_.name is None ==> *final(self) == *old(self) && final(diags)@ == old(diags)@,
            enum_.name is Some ==> variants_declared(
                *old(self),
                *final(self),
                module_index,
                item_index,
                item_id,
                named_variant_count(enum_.variants@, enum_.variants@.len() as int),
            ),
    {
        let module_id = self.modules[module_index].id;
        let enum_name = match &enum_.name {
            Some(name) => name,
            None => {
                return;
            },
        };
        let mut seen: Vec<String> = Vec::new();
        let mut variant_index: usize = 0;
        while variant_index < enum_.variants.len()
            invariant
                self.wf(),
                self.modules_declared(),
                self.sources == old(self).sources,
                module_index < self.modules@.len(),
                variant_index <= enum_.variants@.len(),
                diags_extend(diags@, old(diags)@),
                module_id == old(self).modules@[module_index as int].id,
                self.modules == old(self).modules,
                self.item_symbols == old(self).item_symbols,
                variants_declared(
                    *old(self),
                    *self,
                    module_index,
                    item_index,
                    item_id,
                    named_variant_count(enum_.variants@, variant_index as int),
                ),
            decreases enum_.variants@.len() - variant_index,
        {
            let variant = &enum_.variants[variant_index];
            match &variant.name {
                Some(name) => {
                    if contains_name(&seen, name.as_str()) {
                        self.push_duplicate(module_index, variant.span, name.as_str(), diags);
                    } else {
                        seen.push(name.clone());
                    }
                    let mut path = copy_strings(&self.modules[module_index].path);
                    path.push(enum_name.clone());
                    path.push(name.clone());
                    let symbol = self.alloc_symbol(
                        SymbolKind::Variant,
                        copy_strings(&path),
                        module_id,
                        Some(item_id),
                        variant.span,
                    );
                    self.variant_symbols.push((module_index, item_index, variant_index, symbol));
                    let key = path_key(&path);
                    self.add_global_path(key.as_str(), symbol);
                },
                None => {},
            }
            variant_index = variant_index + 1;
        }
    }

    fn resolve_imports(&mut self, parsed: &Vec<ParseResult>, diags: &mut Vec<Diagnostic>)
        requires
            old(self).wf(),
            old(self).modules_declared(),
            parsed@.len() == old(self).sources@.len(),
        ensures
            final(self).wf(),
            final(self).modules_declared(),
            final(self).sources == old(self).sources,
            diags_extend(final(diags)@, old(diags)@),
            final(self).symbols == old(self).symbols,
            final(self).global_paths == old(self).global_paths,
            final(self).modules@.len() == old(self).modules@.len(),
            forall|m: int|
                0 <= m < final(self).modules@.len() ==> imports_resolved(
                    old(self).global_paths@,
                    old(self).modules@[m].imports@,
                    parsed@[m].ast.imports@,
                    #[trigger] final(self).modules@[m].imports@,
                    parsed@[m].ast.imports@.len() as int,
                ),
    {
        let mut module_index: usize = 0;
        while module_index < self.modules.len()
            invariant
                self.wf(),
                self.modules_declared(),
                self.sources == old(self).sources,
                parsed@.len() == self.sources@.len(),
                module_index <= self.modules@.len(),
                diags_extend(diags@, old(diags)@),
                self.symbols == old(self).symbols,
                self.global_paths == old(self).global_paths,
                self.modules@.len() == old(self).modules@.len(),
                forall|m: int|
                    0 <= m < module_index ==> imports_resolved(
                        old(self).global_paths@,
                        old(self).modules@[m].imports@,
                        parsed@[m].ast.imports@,
                        #[trigger] self.modules@[m].imports@,
                        parsed@[m].ast.imports@.len() as int,
                    ),
                forall|m: int|
                    module_index <= m < self.modules@.len() ==> #[trigger] self.modules@[m].imports
                        == old(self).modules@[m].imports,
            decreases self.modules@.len() - module_index,
        {
            let imports = &parsed[module_index].ast.imports;
            let mut k: usize = 0;
            while k < imports.len()
                invariant
                    self.wf(),
                    self.modules_declared(),
                    self.sources == old(self).sources,
                    parsed@.len() == self.sources@.len(),
                    module_index < self.modules@.len(),
                    k <= imports@.len(),
                    diags_extend(diags@, old(diags)@),
                    imports == &parsed@[module_index as int].ast.imports,
                    self.symbols == old(self).symbols,
                    self.global_paths == old(self).global_paths,
                    self.modules@.len() == old(self).modules@.len(),
                    forall|m: int|
                        0 <= m < module_index ==> imports_resolved(
                            old(self).global_paths@,
                            old(self).modules@[m].imports@,
                            parsed@[m].ast.imports@,
                            #[trigger] self.modules@[m].imports@,
                            parsed@[m].ast.imports@.len() as int,
                        ),
                    forall|m: int|
                        module_index < m < self.modules@.len() ==> #[trigger] self.modules@[m].imports
                            == old(self).modules@[m].imports,
                    imports_resolved(
                        old(self).global_paths@,
                        old(self).modules@[module_index as int].imports@,
                        imports@,
                        self.modules@[module_index as int].imports@,
                        k as int,
                    ),
                decreases imports@.len() - k,
            {
                let import = &imports[k];
                let key = path_key(&import.path);
                let resolved = assoc_get(&self.global_paths, key.as_str());
                match resolved {
                    None => {
                        self.push_invalid_import(module_index, import.span, key.as_str(), diags);
                    },
                    Some(symbol) => {
                        if import.path.len() > 0 {
                            let alias = &import.path[import.path.len() - 1];
                            self.add_visible_name(
                                module_index,
                                alias.as_str(),
                                symbol,
                                import.span,
                                diags,
                            );
                        }
                    },
                }
                let hir_import = HirImport {
                    path: copy_strings(&import.path),
                    resolved,
                    span: import.span,
                };
                let ghost before = self.modules@;
                let ghost entry = hir_import;
                self.modules[module_index].imports.push(hir_import);
                proof {
                    assert(entry.resolved == assoc_find(
                        old(self).global_paths@,
                        join(string_views(imports@[k as int].path@), "."@),
                    ));
                    assert forall|m: int| 0 <= m < self.modules@.len() && m != module_index implies
                        #[trigger] self.modules@[m] == before[m] by {}
                    assert(self.modules@[module_index as int].imports@ == before[module_index as int].imports@.push(entry));
                    assert forall|m: int| 0 <= m < self.modules@.len() implies {
                        &&& (#[trigger] self.modules@[m]).id@ == m
                        &&& self.modules@[m].source_index == m
                        &&& forall|j: int|
                            0 <= j < self.modules@[m].visible@.len() ==> (
                            #[trigger] self.modules@[m].visible@[j]).1@ < self.symbols@.len()
                    } by {
                        assert(self.modules@[m].visible == before[m].visible);
                    }
                }
                k = k + 1;
            }
            module_index = module_index + 1;
        }
    }

    fn lower_package(&self, parsed: &Vec<ParseResult>, diags: &mut Vec<Diagnostic>) -> (r: Vec<HirModule>)
        requires
            self.wf(),
            self.modules_declared(),
            parsed@.len() == self.sources@.len(),
        ensures
            diags_extend(final(diags)@, old(diags)@),
            r@.len() == self.modules@.len(),
            forall|i: int|
                0 <= i < r@.len() ==> (#[trigger] r@[i]).id@ == i && r@[i].source_id
                    == self.sources@[i]@.id && string_views(r@[i].path@) == string_views(
                    self.modules@[i].path@,
                ),
    {
        let mut modules: Vec<HirModule> = Vec::new();
        let mut module_index: usize = 0;
        while module_index < self.modules.len()
            invariant
                self.wf(),
                self.modules_declared(),
                parsed@.len() == self.sources@.len(),
                module_index <= self.modules@.len(),
                modules@.len() == module_index,
                forall|i: int|
                    0 <= i < modules@.len() ==> (#[trigger] modules@[i]).id@ == i
                        && modules@[i].source_id == self.sources@[i]@.id && string_views(
                        modules@[i].path@,
                    ) == string_views(self.modules@[i].path@),
                diags_extend(diags@, old(diags)@),
            decreases self.modules@.len() - module_index,
        {
            let ast = &parsed[module_index].ast;
            let mut items: Vec<HirItem> = Vec::new();
            let mut item_index: usize = 0;
            while item_index < ast.items.len()
                invariant
                    self.wf(),
                    self.modules_declared(),
                    module_index < self.modules@.len(),
                    item_index <= ast.items@.len(),
                    diags_extend(diags@, old(diags)@),
                decreases ast.items@.len() - item_index,
            {
                match self.lower_item(module_index, item_index, &ast.items[item_index], diags) {
                    Some(item) => {
                        items.push(item);
                    },
                    None => {},
                }
                item_index = item_index + 1;
            }
            let module = &self.modules[module_index];
            let ghost before = modules@;
            modules.push(
                HirModule {
                    id: module.id,
                    source_id: self.sources[module_index].id(),
                    path: copy_strings(&module.path),
                    imports: copy_imports(&module.imports),
                    items,
                    span: ast.span,
                },
            );
            proof {
                assert forall|i: int| 0 <= i < modules@.len() implies (#[trigger] modules@[i]).id@ == i
                    && modules@[i].source_id == self.sources@[i]@.id && string_views(
                    modules@[i].path@,
                ) == string_views(self.modules@[i].path@) by {
                    if i < module_index {
                        assert(modules@[i] == before[i]);
                    }
                }
            }
            module_index = module_index + 1;
        }
        modules
    }

    /// The symbol and id declared for item `i` of module `m`; the first entry wins.
    spec fn item_entry(entries: Seq<(usize, usize, SymbolId, ItemId)>, m: usize, i: usize) -> Option<(SymbolId, ItemId)>
        decreases entries.len(),
    {
        if entries.len() == 0 {
            None
        } else if entries[0].0 == m && entries[0].1 == i {
            Some((entries[0].2, entries[0].3))
        } else {
            Self::item_entry(entries.drop_first(), m, i)
        }
    }

    fn lower_item(&self, module_index: usize, item_index: usize, item: &Item, diags: &mut Vec<Diagnostic>) -> (r:
        Option<HirItem>)
        requires
            self.wf(),
            module_index < self.modules@.len(),
        ensures
            diags_extend(final(diags)@, old(diags)@),
            r is None <==> Self::item_entry(self.item_symbols@, module_index, item_index) is None,
            r is None ==> final(diags)@ == old(diags)@,
            r matches Some(h) ==> Self::item_entry(self.item_symbols@, module_index, item_index) == Some((h.symbol, h.id))
                && h.span == crate::ast::item_span(*item) && match (*item, h.kind) {
                (Item::Function(f), HirItemKind::Function(hf)) => hf.name@ == crate::ast::name_text(f.name),
                (Item::Struct(d), HirItemKind::Struct(hs)) => hs.name@ == crate::ast::name_text(d.name),
                (Item::Enum(d), HirItemKind::Enum(he)) => he.name@ == crate::ast::name_text(d.name),
                (Item::Trait(d), HirItemKind::Trait(ht)) => ht.name@ == crate::ast::name_text(d.name),
                (Item::Impl(d), HirItemKind::Impl(hi)) => hi.methods@.len() == d.methods@.len(),
                _ => false,
            },
    {
        let mut found: Option<(SymbolId, ItemId)> = None;
        let mut k: usize = 0;
        proof {
            assert(self.item_symbols@.subrange(0, self.item_symbols@.len() as int) =~= self.item_symbols@);
        }
        while k < self.item_symbols.len()
            invariant_except_break
                k <= self.item_symbols@.len(),
                found is None,
                Self::item_entry(self.item_symbols@, module_index, item_index) == Self::item_entry(
                    self.item_symbols@.subrange(k as int, self.item_symbols@.len() as int),
                    module_index,
                    item_index,
                ),
            ensures
                found == Self::item_entry(self.item_symbols@, module_index, item_index),
            decreases self.item_symbols@.len() - k,
        {
            proof {
                assert(self.item_symbols@.subrange(k as int, self.item_symbols@.len() as int).drop_first()
                    =~= self.item_symbols@.subrange(k + 1, self.item_symbols@.len() as int));
            }
            let entry = &self.item_symbols[k];
            if entry.0 == module_index && entry.1 == item_index {
                found = Some((entry.2, entry.3));
                break;
            }
            k = k + 1;
        }
        let (symbol, id) = match found {
            Some(pair) => pair,
            None => {
                return None;
            },
        };
        let kind = match item {
            Item::Function(function) => HirItemKind::Function(
                self.lower_function_with_generics(module_index, function, &Vec::new(), diags),
            ),
            Item::Struct(s) => HirItemKind::Struct(self.lower_struct(module_index, s, diags)),
            Item::Enum(e) => HirItemKind::Enum(self.lower_enum(module_index, item_index, e, diags)),
            Item::Trait(t) => HirItemKind::Trait(self.lower_trait(module_index, t, diags)),
            Item::Impl(i) => HirItemKind::Impl(self.lower_impl(module_index, i, diags)),
        };
        Some(HirItem { id, symbol, kind, span: item_span(item) })
    }

    fn lower_struct(&self, module_index: usize, s: &StructDecl, diags: &mut Vec<Diagnostic>) -> (r:
        HirStruct)
        requires
            self.wf(),
            module_index < self.modules@.len(),
        ensures
            diags_extend(final(diags)@, old(diags)@),
            r.name@ == crate::ast::name_text(s.name),
            string_views(r.generics@) == string_views(s.generics@),
            r.fields@.len() <= s.fields@.len(),
    {
        let mut fields: Vec<HirField> = Vec::new();
        let mut seen: Vec<String> = Vec::new();
        let mut i: usize = 0;
        while i < s.fields.len()
            invariant
                self.wf(),
                module_index < self.modules@.len(),
                i <= s.fields@.len(),
                fields@.len() <= i,
                diags_extend(diags@, old(diags)@),
            decreases s.fields@.len() - i,
        {
            let field = &s.fields[i];
            match &field.name {
                Some(name) => {
                    if contains_name(&seen, name.as_str()) {
                        self.push_duplicate(module_index, field.span, name.as_str(), diags);
                    } else {
                        seen.push(name.clone());
                    }
                    let ty = match &field.ty {
                        Some(ty) => Some(self.lower_type_ref(module_index, ty, &s.generics, diags)),
                        None => None,
                    };
                    fields.push(HirField { name: name.clone(), ty, span: field.span });
                },
                None => {},
            }
            i = i + 1;
        }
        HirStruct { name: or_missing(&s.name), generics: copy_strings(&s.generics), fields }
    }

    fn lower_enum(
        &self,
        module_index: usize,
        item_index: usize,
        e: &EnumDecl,
        diags: &mut Vec<Diagnostic>,
    ) -> (r: HirEnum)
        requires
            self.wf(),
            module_index < self.modules@.len(),
        ensures
            diags_extend(final(diags)@, old(diags)@),
            r.name@ == crate::ast::name_text(e.name),
            string_views(r.generics@) == string_views(e.generics@),
            r.variants@.len() <= e.variants@.len(),
    {
        let mut variants: Vec<HirVariant> = Vec::new();
        let mut variant_index: usize = 0;
        while variant_index < e.variants.len()
            invariant
                self.wf(),
                module_index < self.modules@.len(),
                variant_index <= e.variants@.len(),
                variants@.len() <= variant_index,
                diags_extend(diags@, old(diags)@),
            decreases e.variants@.len() - variant_index,
        {
            let variant = &e.variants[variant_index];
            match &variant.name {
                Some(name) => {
                    let symbol = self.variant_symbol(module_index, item_index, variant_index);
                    let mut fields: Vec<HirTypeRef> = Vec::new();
                    let mut k: usize = 0;
                    while k < variant.fields.len()
                        invariant
                            self.wf(),
                            module_index < self.modules@.len(),
                            k <= variant.fields@.len(),
                            diags_extend(diags@, old(diags)@),
                        decreases variant.fields@.len() - k,
                    {
                        fields.push(
                            self.lower_type_ref(module_index, &variant.fields[k], &e.generics, diags),
                        );
                        k = k + 1;
                    }
                    match symbol {
                        Some(symbol) => {
                            variants.push(
                                HirVariant { symbol, name: name.clone(), fields, span: variant.span },
                            );
                        },
                        None => {},
                    }
                },
                None => {},
            }
            variant_index = variant_index + 1;
        }
        HirEnum { name: or_missing(&e.name), generics: copy_strings(&e.generics), variants }
    }

    /// The symbol of a path whose first segment is visible in the module: the path of that
    /// symbol extended by the remaining segments, looked up package-wide.
    spec fn relative_target(&self, module_index: usize, path: Seq<String>) -> Option<SymbolId> {
        if path.len() < 2 {
            None
        } else {
            match assoc_find(self.modules@[module_index as int].visible@, path[0]@) {
                None => None,
                Some(base) => assoc_find(
                    self.global_paths@,
                    join(string_views(self.symbols@[base@ as int].path@) + string_views(path).drop_first(), "."@),
                ),
            }
        }
    }

    /// The symbol of a path by its full key, else relative to a visible first segment.
    spec fn global_target(&self, module_index: usize, path: Seq<String>) -> Option<SymbolId> {
        match assoc_find(self.global_paths@, join(string_views(path), "."@)) {
            Some(s) => Some(s),
            None => self.relative_target(module_index, path),
        }
    }

    /// The symbol a one-segment path names through the module's visible names.
    spec fn visible_target(&self, module_index: usize, path: Seq<String>) -> Option<SymbolId> {
        if path.len() == 1 {
            assoc_find(self.modules@[module_index as int].visible@, path[0]@)
        } else {
            None
        }
    }

    /// The symbol of the variant at `(module, item, variant)` among the first `n` entries; the
    /// first entry wins.
    spec fn variant_entry(entries: Seq<(usize, usize, usize, SymbolId)>, m: usize, i: usize, v: usize) -> Option<SymbolId>
        decreases entries.len(),
    {
        if entries.len() == 0 {
            None
        } else if entries[0].0 == m && entries[0].1 == i && entries[0].2 == v {
            Some(entries[0].3)
        } else {
            Self::variant_entry(entries.drop_first(), m, i, v)
        }
    }

    fn variant_symbol(&self, module_index: usize, item_index: usize, variant_index: usize) -> (r:
        Option<SymbolId>)
        ensures
            r == Self::variant_entry(self.variant_symbols@, module_index, item_index, variant_index),
    {
        let mut k: usize = 0;
        proof {
            assert(self.variant_symbols@.subrange(0, self.variant_symbols@.len() as int) =~= self.variant_symbols@);
        }
        while k < self.variant_symbols.len()
            invariant
                k <= self.variant_symbols@.len(),
                Self::variant_entry(self.variant_symbols@, module_index, item_index, variant_index)
                    == Self::variant_entry(
                    self.variant_symbols@.subrange(k as int, self.variant_symbols@.len() as int),
                    module_index,
                    item_index,
                    variant_index,
                ),
            decreases self.variant_symbols@.len() - k,
        {
            proof {
                assert(self.variant_symbols@.subrange(k as int, self.variant_symbols@.len() as int).drop_first()
                    =~= self.variant_symbols@.subrange(k + 1, self.variant_symbols@.len() as int));
            }
            let entry = &self.variant_symbols[k];
            if entry.0 == module_index && entry.1 == item_index && entry.2 == variant_index {
                return Some(entry.3);
            }
            k = k + 1;
        }
        None
    }

    fn lower_trait(&self, module_index: usize, t: &TraitDecl, diags: &mut Vec<Diagnostic>) -> (r:
        HirTrait)
        requires
            self.wf(),
            module_index < self.modules@.len(),
        ensures
            diags_extend(final(diags)@, old(diags)@),
            r.name@ == crate::ast::name_text(t.name),
            string_views(r.generics@) == string_views(t.generics@),
            r.functions@.len() == t.functions@.len(),
            forall|k: int| 0 <= k < r.functions@.len() ==> (#[trigger] r.functions@[k]).name@ == crate::ast::name_text(
                t.functions@[k].name,
            ) && r.functions@[k].span == t.functions@[k].span,
    {
        let mut seen: Vec<String> = Vec::new();
        let mut functions: Vec<HirFunction> = Vec::new();
        let mut i: usize = 0;
        while i < t.functions.len()
            invariant
                self.wf(),
                module_index < self.modules@.len(),
                i <= t.functions@.len(),
                functions@.len() == i,
                forall|k: int| 0 <= k < i ==> (#[trigger] functions@[k]).name@ == crate::ast::name_text(
                    t.functions@[k].name,
                ) && functions@[k].span == t.functions@[k].span,
                diags_extend(diags@, old(diags)@),
            decreases t.functions@.len() - i,
        {
            let function = &t.functions[i];
            match &function.name {
                Some(name) => {
                    if contains_name(&seen, name.as_str()) {
                        self.push_duplicate(module_index, function.span, name.as_str(), diags);
                    } else {
                        seen.push(name.clone());
                    }
                },
                None => {},
            }
            functions.push(
                self.lower_function_with_generics(module_index, function, &t.generics, diags),
            );
            i = i + 1;
        }
        HirTrait { name: or_missing(&t.name), generics: copy_strings(&t.generics), functions }
    }

    fn lower_impl(&self, module_index: usize, i: &ImplDecl, diags: &mut Vec<Diagnostic>) -> (r: HirImpl)
        requires
            self.wf(),
            module_index < self.modules@.len(),
        ensures
            diags_extend(final(diags)@, old(diags)@),
            r.trait_path is Some <==> i.trait_path is Some,
            r.target is Some <==> i.target is Some,
            r.methods@.len() == i.methods@.len(),
            forall|k: int| 0 <= k < r.methods@.len() ==> (#[trigger] r.methods@[k]).name@ == crate::ast::name_text(
                i.methods@[k].name,
            ) && r.methods@[k].span == i.methods@[k].span,
    {
        let no_generics: Vec<String> = Vec::new();
        let trait_path = match &i.trait_path {
            Some(ty) => Some(self.lower_type_ref(module_index, ty, &no_generics, diags)),
            None => None,
        };
        let target = match &i.target {
            Some(ty) => Some(self.lower_type_ref(module_index, ty, &no_generics, diags)),
            None => None,
        };
        let mut seen: Vec<String> = Vec::new();
        let mut methods: Vec<HirFunction> = Vec::new();
        let mut k: usize = 0;
        while k < i.methods.len()
            invariant
                self.wf(),
                module_index < self.modules@.len(),
                k <= i.methods@.len(),
                methods@.len() == k,
                forall|j: int| 0 <= j < k ==> (#[trigger] methods@[j]).name@ == crate::ast::name_text(
                    i.methods@[j].name,
                ) && methods@[j].span == i.methods@[j].span,
                diags_extend(diags@, old(diags)@),
            decreases i.methods@.len() - k,
        {
            let function = &i.methods[k];
            match &function.name {
                Some(name) => {
                    if contains_name(&seen, name.as_str()) {
                        self.push_duplicate(module_index, function.span, name.as_str(), diags);
                    } else {
                        seen.push(name.clone());
                    }
                },
                None => {},
            }
            methods.push(self.lower_function_with_generics(module_index, function, &no_generics, diags));
            k = k + 1;
        }
        HirImpl { trait_path, target, methods }
    }

    fn lower_function_with_generics(
        &self,
        module_index: usize,
        function: &FunctionDecl,
        outer_generics: &Vec<String>,
        diags: &mut Vec<Diagnostic>,
    ) -> (r: HirFunction)
        requires
            self.wf(),
            module_index < self.modules@.len(),
        ensures
            diags_extend(final(diags)@, old(diags)@),
            r.name@ == crate::ast::name_text(function.name),
            string_views(r.generics@) == string_views(function.generics@),
            r.span == function.span,
            r.return_type is Some <==> function.return_type is Some,
            r.body is Some <==> function.body is Some,
            r.body matches Some(b) ==> b.span == function.body->Some_0.span && b.statements@.len()
                == function.body->Some_0.statements@.len(),
            r.params@.len() <= function.params.params@.len(),
    {
        let mut scope = FunctionScope::new();
        let mut generics = copy_strings(outer_generics);
        let mut own = copy_strings(&function.generics);
        generics.append(&mut own);
        let mut params: Vec<HirParam> = Vec::new();
        let mut i: usize = 0;
        while i < function.params.params.len()
            invariant
                self.wf(),
                module_index < self.modules@.len(),
                i <= function.params.params@.len(),
                params@.len() <= i,
                diags_extend(diags@, old(diags)@),
            decreases function.params.params@.len() - i,
        {
            let param = &function.params.params[i];
            match &param.name {
                Some(name) => {
                    let local = scope.declare(
                        diags,
                        self.sources[module_index],
                        name.as_str(),
                        param.span,
                        LocalKind::Param,
                    );
                    let ty = match &param.ty {
                        Some(ty) => Some(self.lower_type_ref(module_index, ty, &generics, diags)),
                        None => None,
                    };
                    params.push(HirParam { local, name: name.clone(), ty, span: param.span });
                },
                None => {},
            }
            i = i + 1;
        }
        let return_type = match &function.return_type {
            Some(ty) => Some(self.lower_type_ref(module_index, ty, &generics, diags)),
            None => None,
        };
        let body = match &function.body {
            Some(body) => Some(self.lower_block(module_index, body, &mut scope, &generics, diags)),
            None => None,
        };
        HirFunction {
            name: or_missing(&function.name),
            generics: copy_strings(&function.generics),
            params,
            return_type,
            body,
            locals: scope.locals,
            span: function.span,
        }
    }

    fn lower_block(
        &self,
        module_index: usize,
        block: &BlockExpr,
        scope: &mut FunctionScope,
        generics: &Vec<String>,
        diags: &mut Vec<Diagnostic>,
    ) -> (r: HirBlock)
        requires
            self.wf(),
            module_index < self.modules@.len(),
        ensures
            diags_extend(final(diags)@, old(diags)@),
            r.span == block.span,
            r.statements@.len() == block.statements@.len(),
            forall|i: int| 0 <= i < r.statements@.len() ==> statement_shape(block.statements@[i], #[trigger] r.statements@[i]),
            block_shape(*block, r),
        decreases block,
    {
        let mut statements: Vec<HirStatement> = Vec::new();
        let mut i: usize = 0;
        while i < block.statements.len()
            invariant
                self.wf(),
                module_index < self.modules@.len(),
                i <= block.statements@.len(),
                diags_extend(diags@, old(diags)@),
                statements@.len() == i,
                forall|k: int| 0 <= k < i ==> statement_shape(block.statements@[k], #[trigger] statements@[k]),
            decreases block.statements@.len() - i,
        {
            let st = self.lower_statement(module_index, &block.statements[i], scope, generics, diags);
            statements.push(st);
            i = i + 1;
        }
        proof {
            lemma_statements_shape(block.statements@, statements@);
        }
        HirBlock { statements, span: block.span }
    }

    fn lower_statement(
        &self,
        module_index: usize,
        statement: &Statement,
        scope: &mut FunctionScope,
        generics: &Vec<String>,
        diags: &mut Vec<Diagnostic>,
    ) -> (r: HirStatement)
        requires
            self.wf(),
            module_index < self.modules@.len(),
        ensures
            diags_extend(final(diags)@, old(diags)@),
            statement_shape(*statement, r),
        decreases statement,
    {
        match statement {
            Statement::Let(statement) => {
                let ty = match &statement.ty {
                    Some(ty) => Some(self.lower_type_ref(module_index, ty, generics, diags)),
                    None => None,
                };
                let value = match &statement.value {
                    Some(expr) => Some(self.lower_expr(module_index, expr, scope, generics, diags)),
                    None => None,
                };
                let local = match &statement.name {
                    Some(name) => Some(
                        scope.declare(
                            diags,
                            self.sources[module_index],
                            name.as_str(),
                            statement.span,
                            LocalKind::Let,
                        ),
                    ),
                    None => None,
                };
                let name = match &statement.name {
                    Some(name) => Some(name.clone()),
                    None => None,
                };
                HirStatement::Let(
                    HirLet {
                        mutable: statement.mutable,
                        local,
                        name,
                        ty,
                        value,
                        span: statement.span,
                    },
                )
            },
            Statement::Return { expr, span } => {
                let expr = match expr {
                    Some(expr) => Some(self.lower_expr(module_index, expr, scope, generics, diags)),
                    None => None,
                };
                HirStatement::Return { expr, span: *span }
            },
            Statement::Expr(expr) => HirStatement::Expr(
                self.lower_expr(module_index, expr, scope, generics, diags),
            ),
        }
    }

    fn lower_expr(
        &self,
        module_index: usize,
        expr: &Expr,
        scope: &mut FunctionScope,
        generics: &Vec<String>,
        diags: &mut Vec<Diagnostic>,
    ) -> (r: HirExpr)
        requires
            self.wf(),
            module_index < self.modules@.len(),
        ensures
            diags_extend(final(diags)@, old(diags)@),
            expr_shape(*expr, r),
            binds_nothing(*expr) ==> final(scope).bindings@ == old(scope).bindings@,
            binds_nothing(*expr) ==> self.paths_resolved(module_index, old(scope).bindings@, *expr, r),
        decreases expr,
    {
        match expr {
            Expr::Missing { span } => HirExpr::Missing { span: *span },
            Expr::Literal { literal, span } => HirExpr::Literal {
                text: literal_string(literal),
                span: *span,
            },
            Expr::Path { path, span } => {
                let resolved = self.resolve_expr_path(module_index, scope, path, *span, diags);
                HirExpr::Path { path: copy_strings(path), resolved, span: *span }
            },
            Expr::Call { callee, args, span } => {
                let callee_hir = self.lower_expr(module_index, callee, scope, generics, diags);
                let mut lowered: Vec<HirExpr> = Vec::new();
                let mut i: usize = 0;
                proof {
                    if binds_nothing(*expr) {
                        lemma_all_bind_nothing(args@);
                        assert(args@.take(0) =~= Seq::<Expr>::empty());
                        assert(self.all_paths_resolved(module_index, old(scope).bindings@, args@.take(0), lowered@));
                    }
                }
                while i < args.len()
                    invariant
                        self.wf(),
                        module_index < self.modules@.len(),
                        i <= args@.len(),
                        *expr == (Expr::Call { callee: *callee, args: *args, span: *span }),
                        diags_extend(diags@, old(diags)@),
                        lowered@.len() == i,
                        forall|k: int| 0 <= k < i ==> expr_shape(args@[k], #[trigger] lowered@[k]),
                        binds_nothing(*expr) ==> scope.bindings@ == old(scope).bindings@,
                        binds_nothing(*expr) ==> forall|k: int| 0 <= k < args@.len() ==> binds_nothing(#[trigger] args@[k]),
                        binds_nothing(*expr) ==> self.all_paths_resolved(
                            module_index,
                            old(scope).bindings@,
                            args@.take(i as int),
                            lowered@,
                        ),
                    decreases args@.len() - i,
                {
                    proof {
                        assert(decreases_to!(*expr => (*expr)->Call_args));
                        assert((*expr)->Call_args == *args);
                        assert(decreases_to!(*args => args@));
                        assert(decreases_to!(args@ => args@[i as int]));
                    }
                    let ghost before = lowered@;
                    let arg = self.lower_expr(module_index, &args[i], scope, generics, diags);
                    lowered.push(arg);
                    proof {
                        if binds_nothing(*expr) {
                            assert(args@.take(i + 1).drop_last() =~= args@.take(i as int));
                            assert(lowered@.drop_last() =~= before);
                            assert(args@.take(i + 1).last() == args@[i as int]);
                        }
                    }
                    i = i + 1;
                }
                proof {
                    assert(args@.take(args@.len() as int) =~= args@);
                    lemma_exprs_shape(args@, lowered@);
                }
                HirExpr::Call { callee: Box::new(callee_hir), args: lowered, span: *span }
            },
            Expr::Block(block) => HirExpr::Block(
                self.lower_block(module_index, block, scope, generics, diags),
            ),
            Expr::If { condition, then_block, else_branch, span } => {
                let condition_hir = self.lower_expr(module_index, condition, scope, generics, diags);
                let then_hir = self.lower_block(module_index, then_block, scope, generics, diags);
                let else_hir = match else_branch {
                    Some(branch) => Some(
                        Box::new(self.lower_expr(module_index, branch, scope, generics, diags)),
                    ),
                    None => None,
                };
                HirExpr::If {
                    condition: Box::new(condition_hir),
                    then_block: then_hir,
                    else_branch: else_hir,
                    span: *span,
                }
            },
            Expr::Match { scrutinee, arms, span } => {
                let scrutinee_hir = self.lower_expr(module_index, scrutinee, scope, generics, diags);
                let mut lowered: Vec<HirMatchArm> = Vec::new();
                let mut i: usize = 0;
                while i < arms.len()
                    invariant
                        self.wf(),
                        module_index < self.modules@.len(),
                        i <= arms@.len(),
                        *expr == (Expr::Match { scrutinee: *scrutinee, arms: *arms, span: *span }),
                        diags_extend(diags@, old(diags)@),
                        lowered@.len() == i,
                        forall|k: int|
                            0 <= k < i ==> pattern_shape(arms@[k].pattern, (#[trigger] lowered@[k]).pattern)
                                && expr_shape(arms@[k].expr, lowered@[k].expr) && lowered@[k].span == arms@[k].span,
                    decreases arms@.len() - i,
                {
                    let arm = &arms[i];
                    let saved_bindings = scope.copy_bindings();
                    let pattern = self.lower_pattern(module_index, &arm.pattern, scope, diags);
                    proof {
                        assert(decreases_to!(*expr => (*expr)->Match_arms));
                        assert((*expr)->Match_arms == *arms);
                        assert(decreases_to!(*arms => arms@));
                        assert(decreases_to!(arms@ => arms@[i as int]));
                        assert(decreases_to!(arms@[i as int] => arms@[i as int].expr));
                    }
                    let arm_expr = self.lower_expr(module_index, &arm.expr, scope, generics, diags);
                    scope.bindings = saved_bindings;
                    lowered.push(HirMatchArm { pattern, expr: arm_expr, span: arm.span });
                    i = i + 1;
                }
                proof {
                    lemma_arms_shape(arms@, lowered@);
                }
                HirExpr::Match { scrutinee: Box::new(scrutinee_hir), arms: lowered, span: *span }
            },
            Expr::Binary { op, left, right, span } => {
                let left_hir = self.lower_expr(module_index, left, scope, generics, diags);
                let right_hir = self.lower_expr(module_index, right, scope, generics, diags);
                HirExpr::Binary {
                    op: binary_op_str(*op),
                    left: Box::new(left_hir),
                    right: Box::new(right_hir),
                    span: *span,
                }
            },
            Expr::Try { expr: inner, span } => {
                let inner_hir = self.lower_expr(module_index, inner, scope, generics, diags);
                HirExpr::Try { expr: Box::new(inner_hir), span: *span }
            },
        }
    }

    fn lower_pattern(
        &self,
        module_index: usize,
        pattern: &Pattern,
        scope: &mut FunctionScope,
        diags: &mut Vec<Diagnostic>,
    ) -> (r: HirPattern)
        requires
            self.wf(),
            module_index < self.modules@.len(),
        ensures
            diags_extend(final(diags)@, old(diags)@),
            pattern_shape(*pattern, r),
            *pattern is Binding ==> (r matches HirPattern::Binding { local, .. } && local@ == old(scope).locals@.len()),
    {
        match pattern {
            Pattern::Wildcard { span } => HirPattern::Wildcard { span: *span },
            Pattern::Binding { name, span } => {
                let local = scope.declare(
                    diags,
                    self.sources[module_index],
                    name.as_str(),
                    *span,
                    LocalKind::Pattern,
                );
                HirPattern::Binding { local, name: name.clone(), span: *span }
            },
            Pattern::Literal { literal, span } => HirPattern::Literal {
                text: literal_string(literal),
                span: *span,
            },
            Pattern::Path { path, span } => {
                let resolved = self.resolve_item_path(module_index, path, *span, diags);
                HirPattern::Path { path: copy_strings(path), resolved, span: *span }
            },
        }
    }

    fn lower_type_ref(
        &self,
        module_index: usize,
        ty: &TypeRef,
        generics: &Vec<String>,
        diags: &mut Vec<Diagnostic>,
    ) -> (r: HirTypeRef)
        requires
            self.wf(),
            module_index < self.modules@.len(),
        ensures
            diags_extend(final(diags)@, old(diags)@),
            r.span == ty.span,
            string_views(r.path@) == string_views(ty.path@),
            r.generic_args@.len() == ty.generic_args@.len(),
        decreases ty,
    {
        let resolved = self.resolve_type_path(module_index, generics, &ty.path, ty.span, diags);
        let mut args: Vec<HirTypeRef> = Vec::new();
        let mut i: usize = 0;
        while i < ty.generic_args.len()
            invariant
                self.wf(),
                module_index < self.modules@.len(),
                i <= ty.generic_args@.len(),
                args@.len() == i,
                diags_extend(diags@, old(diags)@),
            decreases ty.generic_args@.len() - i,
        {
            args.push(self.lower_type_ref(module_index, &ty.generic_args[i], generics, diags));
            i = i + 1;
        }
        HirTypeRef { path: copy_strings(&ty.path), resolved, generic_args: args, span: ty.span }
    }

    /// A one-segment type path names a generic, a visible symbol or a built-in type, in that
    /// order; otherwise the path is resolved package-wide.
    fn resolve_type_path(
        &self,
        module_index: usize,
        generics: &Vec<String>,
        path: &Vec<String>,
        span: TextRange,
        diags: &mut Vec<Diagnostic>,
    ) -> (r: Option<ResolvedPath>)
        requires
            self.wf(),
            module_index < self.modules@.len(),
        ensures
            diags_extend(final(diags)@, old(diags)@),
            path@.len() == 1 && (exists|k: int| 0 <= k < generics@.len() && (#[trigger] generics@[k])@ == path@[0]@) ==> (r matches Some(
                ResolvedPath::Generic(n),
            ) && n@ == path@[0]@) && final(diags)@ == old(diags)@,
            !(path@.len() == 1 && (exists|k: int| 0 <= k < generics@.len() && (#[trigger] generics@[k])@ == path@[0]@)) ==> match self.visible_target(module_index, path@) {
                Some(s) => r == Some(ResolvedPath::Symbol(s)) && final(diags)@ == old(diags)@,
                None => if path@.len() == 1 && builtin_named(path@[0]@) is Some {
                    r == Some(ResolvedPath::Builtin(builtin_named(path@[0]@)->Some_0)) && final(diags)@ == old(diags)@
                } else {
                    match self.global_target(module_index, path@) {
                        Some(s) => r == Some(ResolvedPath::Symbol(s)) && final(diags)@ == old(diags)@,
                        None => r is None && final(diags)@.len() == old(diags)@.len() + 1,
                    }
                },
            },
    {
        if path.len() == 1 {
            let name = path[0].as_str();
            if contains_name(generics, name) {
                return Some(ResolvedPath::Generic(path[0].clone()));
            }
            match assoc_get(&self.modules[module_index].visible, name) {
                Some(symbol) => {
                    return Some(ResolvedPath::Symbol(symbol));
                },
                None => {},
            }
            match BuiltinType::from_name(name) {
                Some(builtin) => {
                    return Some(ResolvedPath::Builtin(builtin));
                },
                None => {},
            }
        }
        self.resolve_global_path(module_index, path, span, diags)
    }

    /// A one-segment expression path names a local or a visible symbol, in that order; otherwise
    /// the path is resolved package-wide.
    /// What a path in an expression names, with local `bindings`: a binding for a one-segment
    /// path, else a visible name, else a global path, else nothing.
    spec fn expr_path_resolution(&self, module_index: usize, bindings: Seq<(String, LocalId)>, path: Seq<String>) -> Option<ResolvedPath> {
        if path.len() == 1 && assoc_find(bindings, path[0]@) is Some {
            Some(ResolvedPath::Local(assoc_find(bindings, path[0]@)->Some_0))
        } else {
            match self.visible_target(module_index, path) {
                Some(s) => Some(ResolvedPath::Symbol(s)),
                None => match self.global_target(module_index, path) {
                    Some(s) => Some(ResolvedPath::Symbol(s)),
                    None => None,
                },
            }
        }
    }

    /// Every path of `h`, lowered from `e`, holds what [`Self::expr_path_resolution`] gives for
    /// it with `bindings`, where `e` binds nothing; the lowered operands keep their shape.
    spec fn paths_resolved(&self, module_index: usize, bindings: Seq<(String, LocalId)>, e: Expr, h: HirExpr) -> bool
        decreases e, 1nat,
    {
        match (e, h) {
            (Expr::Path { path, .. }, HirExpr::Path { resolved, .. }) => resolved == self.expr_path_resolution(
                module_index,
                bindings,
                path@,
            ),
            (Expr::Call { callee, args, .. }, HirExpr::Call { callee: c, args: a, .. }) => self.paths_resolved(
                module_index,
                bindings,
                *callee,
                *c,
            ) && self.all_paths_resolved(module_index, bindings, args@, a@),
            (Expr::Binary { left, right, .. }, HirExpr::Binary { left: l, right: r, .. }) => self.paths_resolved(
                module_index,
                bindings,
                *left,
                *l,
            ) && self.paths_resolved(module_index, bindings, *right, *r),
            (Expr::Try { expr, .. }, HirExpr::Try { expr: x, .. }) => self.paths_resolved(module_index, bindings, *expr, *x),
            _ => true,
        }
    }

    spec fn all_paths_resolved(&self, module_index: usize, bindings: Seq<(String, LocalId)>, es: Seq<Expr>, hs: Seq<HirExpr>) -> bool
        decreases es, 0nat,
    {
        if es.len() == 0 {
            true
        } else {
            es.len() == hs.len() && self.all_paths_resolved(module_index, bindings, es.drop_last(), hs.drop_last())
                && self.paths_resolved(module_index, bindings, es.last(), hs.last())
        }
    }

    fn resolve_expr_path(
        &self,
        module_index: usize,
        scope: &FunctionScope,
        path: &Vec<String>,
        span: TextRange,
        diags: &mut Vec<Diagnostic>,
    ) -> (r: Option<ResolvedPath>)
        requires
            self.wf(),
            module_index < self.modules@.len(),
        ensures
            diags_extend(final(diags)@, old(diags)@),
            path@.len() == 1 && assoc_find(scope.bindings@, path@[0]@) is Some ==> r == Some(
                ResolvedPath::Local(assoc_find(scope.bindings@, path@[0]@)->Some_0),
            ) && final(diags)@ == old(diags)@,
            !(path@.len() == 1 && assoc_find(scope.bindings@, path@[0]@) is Some) ==> match self.visible_target(module_index, path@) {
                Some(s) => r == Some(ResolvedPath::Symbol(s)) && final(diags)@ == old(diags)@,
                None => match self.global_target(module_index, path@) {
                    Some(s) => r == Some(ResolvedPath::Symbol(s)) && final(diags)@ == old(diags)@,
                    None => r is None && final(diags)@.len() == old(diags)@.len() + 1,
                },
            },
            r == self.expr_path_resolution(module_index, scope.bindings@, path@),
    {
        if path.len() == 1 {
            let name = path[0].as_str();
            match assoc_get(&scope.bindings, name) {
                Some(local) => {
                    return Some(ResolvedPath::Local(local));
                },
                None => {},
            }
            match assoc_get(&self.modules[module_index].visible, name) {
                Some(symbol) => {
                    return Some(ResolvedPath::Symbol(symbol));
                },
                None => {},
            }
        }
        self.resolve_global_path(module_index, path, span, diags)
    }

    fn resolve_item_path(
        &self,
        module_index: usize,
        path: &Vec<String>,
        span: TextRange,
        diags: &mut Vec<Diagnostic>,
    ) -> (r: Option<ResolvedPath>)
        requires
            self.wf(),
            module_index < self.modules@.len(),
        ensures
            diags_extend(final(diags)@, old(diags)@),
            match self.visible_target(module_index, path@) {
                Some(s) => r == Some(ResolvedPath::Symbol(s)) && final(diags)@ == old(diags)@,
                None => match self.global_target(module_index, path@) {
                    Some(s) => r == Some(ResolvedPath::Symbol(s)) && final(diags)@ == old(diags)@,
                    None => r is None && final(diags)@.len() == old(diags)@.len() + 1,
                },
            },
    {
        if path.len() == 1 {
            match assoc_get(&self.modules[module_index].visible, path[0].as_str()) {
                Some(symbol) => {
                    return Some(ResolvedPath::Symbol(symbol));
                },
                None => {},
            }
        }
        self.resolve_global_path(module_index, path, span, diags)
    }

    /// Resolves a path by its full key, then relative to a visible first segment; reports it as
    /// unresolved otherwise.
    fn resolve_global_path(
        &self,
        module_index: usize,
        path: &Vec<String>,
        span: TextRange,
        diags: &mut Vec<Diagnostic>,
    ) -> (r: Option<ResolvedPath>)
        requires
            self.wf(),
            module_index < self.modules@.len(),
        ensures
            diags_extend(final(diags)@, old(diags)@),
            r is None <==> final(diags)@.len() == old(diags)@.len() + 1,
            r is Some ==> final(diags)@ == old(diags)@,
            match self.global_target(module_index, path@) {
                Some(s) => r == Some(ResolvedPath::Symbol(s)),
                None => r is None,
            },
    {
        let key = path_key(path);
        match assoc_get(&self.global_paths, key.as_str()) {
            Some(symbol) => Some(ResolvedPath::Symbol(symbol)),
            None => match self.resolve_relative_qualified_path(module_index, path) {
                Some(symbol) => Some(ResolvedPath::Symbol(symbol)),
                None => {
                    self.push_unresolved(module_index, span, key.as_str(), diags);
                    None
                },
            },
        }
    }

    fn resolve_relative_qualified_path(&self, module_index: usize, path: &Vec<String>) -> (r: Option<
        SymbolId,
    >)
        requires
            self.wf(),
            module_index < self.modules@.len(),
        ensures
            r == self.relative_target(module_index, path@),
    {
        if path.len() < 2 {
            return None;
        }
        let base = match assoc_get(&self.modules[module_index].visible, path[0].as_str()) {
            Some(symbol) => symbol,
            None => {
                return None;
            },
        };
        let mut absolute = copy_strings(&self.symbols[base.get()].path);
        let ghost prefix = string_views(self.symbols@[base@ as int].path@);
        let mut i: usize = 1;
        while i < path.len()
            invariant
                1 <= i <= path@.len(),
                string_views(absolute@) == prefix + string_views(path@).subrange(1, i as int),
            decreases path@.len() - i,
        {
            let ghost before = absolute@;
            let seg = path[i].clone();
            absolute.push(seg);
            proof {
                assert(string_views(absolute@) =~= string_views(before).push(seg@));
                assert(string_views(absolute@) =~= prefix + string_views(path@).subrange(1, i + 1));
            }
            i = i + 1;
        }
        proof {
            assert(string_views(path@).subrange(1, i as int) =~= string_views(path@).drop_first());
        }
        let key = path_key(&absolute);
        assoc_get(&self.global_paths, key.as_str())
    }
}

/// The HIR expression was lowered from the source expression: the same kind, span, literal
/// text, path and operator, and every subexpression, block and match arm lowered in turn.
pub open spec fn expr_shape(e: Expr, h: HirExpr) -> bool
    decreases e, 3nat,
{
    match (e, h) {
        (Expr::Missing { span }, HirExpr::Missing { span: s }) => span == s,
        (Expr::Literal { literal, span }, HirExpr::Literal { text, span: s }) => text@ == literal_text(literal)
            && span == s,
        (Expr::Path { path, span }, HirExpr::Path { path: p, span: s, .. }) => string_views(p@) == string_views(path@)
            && span == s,
        (Expr::Call { callee, args, span }, HirExpr::Call { callee: c, args: a, span: s }) => span == s && expr_shape(
            *callee,
            *c,
        ) && exprs_shape(args@, a@),
        (Expr::Block(b), HirExpr::Block(hb)) => block_shape(b, hb),
        (
            Expr::If { condition, then_block, else_branch, span },
            HirExpr::If { condition: c, then_block: t, else_branch: e2, span: s },
        ) => span == s && expr_shape(*condition, *c) && block_shape(then_block, t) && match (else_branch, e2) {
            (Some(x), Some(y)) => expr_shape(*x, *y),
            (None, None) => true,
            _ => false,
        },
        (Expr::Match { scrutinee, arms, span }, HirExpr::Match { scrutinee: x, arms: a, span: s }) => span == s
            && expr_shape(*scrutinee, *x) && arms_shape(arms@, a@),
        (Expr::Binary { op, left, right, span }, HirExpr::Binary { op: o, left: l, right: r, span: s }) => o@
            == binary_op_text(op) && span == s && expr_shape(*left, *l) && expr_shape(*right, *r),
        (Expr::Try { expr, span }, HirExpr::Try { expr: x, span: s }) => span == s && expr_shape(*expr, *x),
        _ => false,
    }
}

/// Each expression of `hs` was lowered from the one of `es` at its place.
pub open spec fn exprs_shape(es: Seq<Expr>, hs: Seq<HirExpr>) -> bool
    decreases es, 2nat,
{
    es.len() == hs.len() && (es.len() == 0 || (exprs_shape(es.drop_last(), hs.drop_last()) && expr_shape(
        es.last(),
        hs.last(),
    )))
}

/// Each arm of `hs` was lowered from the arm of `arms` at its place: pattern, expression and span.
pub open spec fn arms_shape(arms: Seq<MatchArm>, hs: Seq<HirMatchArm>) -> bool
    decreases arms, 2nat,
{
    arms.len() == hs.len() && (arms.len() == 0 || (arms_shape(arms.drop_last(), hs.drop_last()) && pattern_shape(
        arms.last().pattern,
        hs.last().pattern,
    ) && expr_shape(arms.last().expr, hs.last().expr) && hs.last().span == arms.last().span))
}

/// The HIR block was lowered from the source block, statement by statement.
pub open spec fn block_shape(b: BlockExpr, hb: HirBlock) -> bool
    decreases b, 2nat,
{
    hb.span == b.span && statements_shape(b.statements@, hb.statements@)
}

/// Each statement of `hs` was lowered from the one of `ss` at its place.
pub open spec fn statements_shape(ss: Seq<Statement>, hs: Seq<HirStatement>) -> bool
    decreases ss, 1nat,
{
    ss.len() == hs.len() && (ss.len() == 0 || (statements_shape(ss.drop_last(), hs.drop_last()) && statement_shape(
        ss.last(),
        hs.last(),
    )))
}

/// The HIR statement was lowered from the source statement: its kind, span and binding, and its
/// expressions lowered in turn.
pub open spec fn statement_shape(st: Statement, h: HirStatement) -> bool
    decreases st, 0nat,
{
    match (st, h) {
        (Statement::Let(l), HirStatement::Let(hl)) => hl.mutable == l.mutable && hl.span == l.span && (hl.local is Some
            <==> l.name is Some) && (hl.ty is Some <==> l.ty is Some) && match (l.value, hl.value) {
            (Some(x), Some(y)) => expr_shape(x, y),
            (None, None) => true,
            _ => false,
        },
        (Statement::Return { expr, span }, HirStatement::Return { expr: e, span: s }) => span == s && match (expr, e) {
            (Some(x), Some(y)) => expr_shape(x, y),
            (None, None) => true,
            _ => false,
        },
        (Statement::Expr(e), HirStatement::Expr(he)) => expr_shape(e, he),
        _ => false,
    }
}

/// An expression built from literals, paths, calls, binary operators and `?` alone: lowering
/// it binds no name, so every path in it is resolved in the same scope.
pub open spec fn binds_nothing(e: Expr) -> bool
    decreases e, 1nat,
{
    match e {
        Expr::Missing { .. } | Expr::Literal { .. } | Expr::Path { .. } => true,
        Expr::Call { callee, args, .. } => binds_nothing(*callee) && all_bind_nothing(args@),
        Expr::Binary { left, right, .. } => binds_nothing(*left) && binds_nothing(*right),
        Expr::Try { expr, .. } => binds_nothing(*expr),
        _ => false,
    }
}

/// Every expression of the sequence binds nothing.
pub open spec fn all_bind_nothing(es: Seq<Expr>) -> bool
    decreases es, 0nat,
{
    if es.len() == 0 {
        true
    } else {
        all_bind_nothing(es.drop_last()) && binds_nothing(es.last())
    }
}

proof fn lemma_all_bind_nothing(es: Seq<Expr>)
    requires
        all_bind_nothing(es),
    ensures
        forall|k: int| 0 <= k < es.len() ==> binds_nothing(#[trigger] es[k]),
    decreases es.len(),
{
    if es.len() > 0 {
        lemma_all_bind_nothing(es.drop_last());
        assert forall|k: int| 0 <= k < es.len() implies binds_nothing(#[trigger] es[k]) by {
            if k < es.len() - 1 {
                assert(es[k] == es.drop_last()[k]);
            }
        }
    }
}

proof fn lemma_exprs_shape(es: Seq<Expr>, hs: Seq<HirExpr>)
    requires
        es.len() == hs.len(),
        forall|k: int| 0 <= k < es.len() ==> expr_shape(es[k], #[trigger] hs[k]),
    ensures
        exprs_shape(es, hs),
    decreases es.len(),
{
    if es.len() > 0 {
        assert forall|k: int| 0 <= k < es.len() - 1 implies expr_shape(es.drop_last()[k], #[trigger] hs.drop_last()[k]) by {
            assert(hs.drop_last()[k] == hs[k]);
            assert(es.drop_last()[k] == es[k]);
        }
        lemma_exprs_shape(es.drop_last(), hs.drop_last());
        assert(expr_shape(es[es.len() - 1], hs[hs.len() - 1]));
    }
}

proof fn lemma_statements_shape(ss: Seq<Statement>, hs: Seq<HirStatement>)
    requires
        ss.len() == hs.len(),
        forall|k: int| 0 <= k < ss.len() ==> statement_shape(ss[k], #[trigger] hs[k]),
    ensures
        statements_shape(ss, hs),
    decreases ss.len(),
{
    if ss.len() > 0 {
        assert forall|k: int| 0 <= k < ss.len() - 1 implies statement_shape(ss.drop_last()[k], #[trigger] hs.drop_last()[k]) by {
            assert(hs.drop_last()[k] == hs[k]);
            assert(ss.drop_last()[k] == ss[k]);
        }
        lemma_statements_shape(ss.drop_last(), hs.drop_last());
        assert(statement_shape(ss[ss.len() - 1], hs[hs.len() - 1]));
    }
}

proof fn lemma_arms_shape(arms: Seq<MatchArm>, hs: Seq<HirMatchArm>)
    requires
        arms.len() == hs.len(),
        forall|k: int|
            0 <= k < arms.len() ==> pattern_shape(arms[k].pattern, (#[trigger] hs[k]).pattern) && expr_shape(
                arms[k].expr,
                hs[k].expr,
            ) && hs[k].span == arms[k].span,
    ensures
        arms_shape(arms, hs),
    decreases arms.len(),
{
    if arms.len() > 0 {
        assert forall|k: int| 0 <= k < arms.len() - 1 implies pattern_shape(
            arms.drop_last()[k].pattern,
            (#[trigger] hs.drop_last()[k]).pattern,
        ) && expr_shape(arms.drop_last()[k].expr, hs.drop_last()[k].expr) && hs.drop_last()[k].span
            == arms.drop_last()[k].span by {
            assert(hs.drop_last()[k] == hs[k]);
            assert(arms.drop_last()[k] == arms[k]);
        }
        lemma_arms_shape(arms.drop_last(), hs.drop_last());
        assert(hs[hs.len() - 1] == hs.last());
    }
}

/// The HIR pattern has the kind and span of the source pattern.
pub open spec fn pattern_shape(p: Pattern, h: HirPattern) -> bool {
    match (p, h) {
        (Pattern::Wildcard { span }, HirPattern::Wildcard { span: s }) => span == s,
        (Pattern::Binding { name, span }, HirPattern::Binding { name: n, span: s, .. }) => n@ == name@ && span == s,
        (Pattern::Literal { literal, span }, HirPattern::Literal { text, span: s }) => text@ == literal_text(literal)
            && span == s,
        (Pattern::Path { path, span }, HirPattern::Path { path: q, span: s, .. }) => string_views(q@) == string_views(
            path@,
        ) && span == s,
        _ => false,
    }
}

fn copy_imports(imports: &Vec<HirImport>) -> (r: Vec<HirImport>)
    ensures
        r@.len() == imports@.len(),
        forall|k: int|
            0 <= k < r@.len() ==> string_views((#[trigger] r@[k]).path@) == string_views(
                imports@[k].path@,
            ) && r@[k].resolved == imports@[k].resolved && r@[k].span == imports@[k].span,
{
    let mut out: Vec<HirImport> = Vec::new();
    let mut i: usize = 0;
    while i < imports.len()
        invariant
            i <= imports@.len(),
            out@.len() == i,
            forall|k: int|
                0 <= k < i ==> string_views((#[trigger] out@[k]).path@) == string_views(
                    imports@[k].path@,
                ) && out@[k].resolved == imports@[k].resolved && out@[k].span == imports@[k].span,
        decreases imports@.len() - i,
    {
        let import = &imports[i];
        out.push(
            HirImport { path: copy_strings(&import.path), resolved: import.resolved, span: import.span },
        );
        i = i + 1;
    }
    out
}

} // verus!
