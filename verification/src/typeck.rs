//! Static type checking for resolved Maodie HIR.
use vstd::prelude::*;
use vstd::string::*;

use crate::ast::{emit, range_text};
use crate::diagnostic::{
    diagnostic_views, is_valid_code, resolved_span, Diagnostic, DiagnosticCode, DiagnosticSeverity,
    DiagnosticSpan, DiagnosticView, SpanView,
};
use crate::hir::{
    BuiltinType, HirBlock, HirExpr, HirFunction, HirImpl, HirItem, HirItemKind, HirLet,
    HirModule, HirPackage, HirPattern, HirStatement, HirTypeRef, ItemId, LocalId, ResolvedPath,
    SymbolId, SymbolKind,
};
use crate::log_format::parse_log_format;
use crate::parser::{is_syntax_diagnostic, parse_reports};
use crate::resolver::{
    concat_diags, copy_strings, is_resolver_diagnostic, lemma_syntax_not_resolver, resolve_result_wf,
    resolve_source, resolve_sources, resolved_package_wf, source_ids,
};
use crate::source::{SourceFile, SourceId, TextRange};
use crate::text::{decimal, join, owned, push_decimal, push_join, str_eq, string_views};

verus! {

/// Stable type identifier inside one type-check result.
#[derive(Clone, Copy, Debug, PartialEq, Eq, Structural, Hash, PartialOrd, Ord)]
pub struct TypeId(usize);

impl View for TypeId {
    type V = usize;

    closed spec fn view(&self) -> usize {
        self.0
    }
}

impl TypeId {
    /// Creates a type id from a stable numeric index.
    pub fn new(value: usize) -> (r: Self)
        ensures
            r@ == value,
    {
        TypeId(value)
    }

    /// Returns the raw index.
    pub fn get(self) -> (r: usize)
        ensures
            r == self@,
    {
        self.0
    }

    /// Dump form: `t` followed by the index.
    pub fn dump_text(self) -> (r: String)
        ensures
            r@ == "t"@ + decimal(self@ as nat),
    {
        let mut s = owned("t");
        push_decimal(&mut s, self.0);
        s
    }
}

/// Interned type shape.
#[derive(Debug)]
pub enum TypeKind {
    /// Unknown type after an earlier error.
    Error,
    /// `unit`.
    Unit,
    /// `i32`.
    I32,
    /// `bool`.
    Bool,
    /// `String`.
    String,
    /// Rigid generic parameter inside a declaration.
    Generic(String),
    /// Flexible generic variable for call/variant instantiation.
    Infer(String),
    /// Nominal user type with generic arguments.
    Nominal {
        /// Defining symbol.
        symbol: SymbolId,
        /// Generic argument types.
        args: Vec<TypeId>,
    },
    /// Function-like value.
    Function {
        /// Generic parameter names.
        generics: Vec<String>,
        /// Parameter types.
        params: Vec<TypeId>,
        /// Return type.
        return_type: TypeId,
    },
}

/// Abstract content of a type shape.
pub enum TypeKindView {
    Error,
    Unit,
    I32,
    Bool,
    String,
    Generic(Seq<char>),
    Infer(Seq<char>),
    Nominal { symbol: usize, args: Seq<usize> },
    Function { generics: Seq<Seq<char>>, params: Seq<usize>, return_type: usize },
}

/// The indexes of a sequence of type ids.
pub open spec fn type_ids(v: Seq<TypeId>) -> Seq<usize> {
    v.map_values(|t: TypeId| t@)
}

impl View for TypeKind {
    type V = TypeKindView;

    open spec fn view(&self) -> TypeKindView {
        match self {
            TypeKind::Error => TypeKindView::Error,
            TypeKind::Unit => TypeKindView::Unit,
            TypeKind::I32 => TypeKindView::I32,
            TypeKind::Bool => TypeKindView::Bool,
            TypeKind::String => TypeKindView::String,
            TypeKind::Generic(name) => TypeKindView::Generic(name@),
            TypeKind::Infer(name) => TypeKindView::Infer(name@),
            TypeKind::Nominal { symbol, args } => TypeKindView::Nominal {
                symbol: symbol@,
                args: type_ids(args@),
            },
            TypeKind::Function { generics, params, return_type } => TypeKindView::Function {
                generics: string_views(generics@),
                params: type_ids(params@),
                return_type: return_type@,
            },
        }
    }
}

/// Type table entry for a local binding.
#[derive(Debug)]
pub struct LocalType {
    /// Function or method owning the local.
    pub owner: String,
    /// Local id inside the owner.
    pub local: LocalId,
    /// Source binding name.
    pub name: String,
    /// Whether assignment is allowed.
    pub mutable: bool,
    /// Inferred or declared type.
    pub ty: TypeId,
}

/// Type table entry for an expression.
#[derive(Debug)]
pub struct ExprType {
    /// Function or method owning the expression.
    pub owner: String,
    /// Expression span.
    pub span: TextRange,
    /// Expression type.
    pub ty: TypeId,
}

/// Type table entry for a top-level item.
#[derive(Clone, Copy, Debug, PartialEq, Eq, Structural)]
pub struct ItemType {
    /// Item id.
    pub item: ItemId,
    /// Item symbol.
    pub symbol: SymbolId,
    /// Item type.
    pub ty: TypeId,
}

/// Generic substitution observed while checking a call or variant use.
#[derive(Debug)]
pub struct TypeSubstitution {
    /// Source expression span that caused the substitution.
    pub span: TextRange,
    /// Generic parameter name.
    pub generic: String,
    /// Concrete replacement type.
    pub replacement: TypeId,
}

/// Stable type information produced by the checker.
#[derive(Debug)]
pub struct TypeTable {
    /// Interned types in deterministic allocation order.
    pub types: Vec<TypeKind>,
    /// Top-level item types.
    pub items: Vec<ItemType>,
    /// Function-local binding types.
    pub locals: Vec<LocalType>,
    /// Expression types.
    pub expressions: Vec<ExprType>,
    /// Generic substitutions prepared for later instantiation.
    pub substitutions: Vec<TypeSubstitution>,
}

// ---------------------------------------------------------------------------
// Display of types
// ---------------------------------------------------------------------------

/// Display of the type with index `id`, following argument references at most `fuel` deep.
/// A table whose references form no cycle never runs out of fuel when it starts with the
/// table's length.
pub open spec fn type_text(types: Seq<TypeKind>, id: usize, fuel: nat) -> Seq<char>
    decreases fuel, 0nat, 0nat,
{
    if fuel == 0 || id >= types.len() {
        "<invalid>"@
    } else {
        kind_text(types, types[id as int], (fuel - 1) as nat)
    }
}

/// Displays of a list of type ids.
pub open spec fn type_texts(types: Seq<TypeKind>, ids: Seq<TypeId>, fuel: nat) -> Seq<Seq<char>>
    decreases fuel, 1nat, ids.len(),
{
    if ids.len() == 0 {
        Seq::empty()
    } else {
        type_texts(types, ids.drop_last(), fuel).push(type_text(types, ids.last()@, fuel))
    }
}

/// Source-like display of a type shape.
pub open spec fn kind_text(types: Seq<TypeKind>, k: TypeKind, fuel: nat) -> Seq<char>
    decreases fuel, 2nat, 0nat,
{
    match k {
        TypeKind::Error => "<error>"@,
        TypeKind::Unit => "unit"@,
        TypeKind::I32 => "i32"@,
        TypeKind::Bool => "bool"@,
        TypeKind::String => "String"@,
        TypeKind::Generic(name) => name@,
        TypeKind::Infer(name) => "?"@ + name@,
        TypeKind::Nominal { symbol, args } => if args@.len() == 0 {
            "s"@ + decimal(symbol@ as nat)
        } else {
            "s"@ + decimal(symbol@ as nat) + "<"@ + join(type_texts(types, args@, fuel), ", "@)
                + ">"@
        },
        TypeKind::Function { generics, params, return_type } => "fn"@ + (if generics@.len() == 0 {
            Seq::<char>::empty()
        } else {
            "<"@ + join(string_views(generics@), ", "@) + ">"@
        }) + "("@ + join(type_texts(types, params@, fuel), ", "@) + ") -> "@ + type_text(
            types,
            return_type@,
            fuel,
        ),
    }
}

fn type_string(types: &Vec<TypeKind>, id: usize, fuel: usize) -> (r: String)
    ensures
        r@ == type_text(types@, id, fuel as nat),
    decreases fuel, 0nat, 0nat,
{
    if fuel == 0 || id >= types.len() {
        owned("<invalid>")
    } else {
        kind_string(types, &types[id], fuel - 1)
    }
}

fn push_type_list(out: &mut String, types: &Vec<TypeKind>, ids: &Vec<TypeId>, fuel: usize)
    ensures
        final(out)@ == old(out)@ + join(type_texts(types@, ids@, fuel as nat), ", "@),
    decreases fuel, 1nat, 0nat,
{
    let mut parts: Vec<String> = Vec::new();
    let mut i: usize = 0;
    proof {
        assert(ids@.take(0) =~= Seq::<TypeId>::empty());
        assert(string_views(parts@) =~= type_texts(types@, ids@.take(0), fuel as nat));
    }
    while i < ids.len()
        invariant
            i <= ids@.len(),
            string_views(parts@) == type_texts(types@, ids@.take(i as int), fuel as nat),
        decreases ids@.len() - i,
    {
        let part = type_string(types, ids[i].get(), fuel);
        let ghost before = parts@;
        parts.push(part);
        proof {
            assert(ids@.take(i + 1).drop_last() =~= ids@.take(i as int));
            assert(string_views(parts@) =~= string_views(before).push(part@));
        }
        i = i + 1;
    }
    proof {
        assert(ids@.take(ids@.len() as int) =~= ids@);
    }
    push_join(out, &parts, ", ");
}

fn kind_string(types: &Vec<TypeKind>, k: &TypeKind, fuel: usize) -> (r: String)
    ensures
        r@ == kind_text(types@, *k, fuel as nat),
    decreases fuel, 2nat, 0nat,
{
    match k {
        TypeKind::Error => owned("<error>"),
        TypeKind::Unit => owned("unit"),
        TypeKind::I32 => owned("i32"),
        TypeKind::Bool => owned("bool"),
        TypeKind::String => owned("String"),
        TypeKind::Generic(name) => name.clone(),
        TypeKind::Infer(name) => {
            let mut s = owned("?");
            s.append(name.as_str());
            s
        },
        TypeKind::Nominal { symbol, args } => {
            let mut s = symbol.dump_text();
            if args.len() > 0 {
                s.append("<");
                push_type_list(&mut s, types, args, fuel);
                s.append(">");
            }
            s
        },
        TypeKind::Function { generics, params, return_type } => {
            let mut s = owned("fn");
            if generics.len() > 0 {
                s.append("<");
                push_join(&mut s, generics, ", ");
                s.append(">");
            }
            s.append("(");
            push_type_list(&mut s, types, params, fuel);
            s.append(") -> ");
            let ret = type_string(types, return_type.get(), fuel);
            s.append(ret.as_str());
            s
        },
    }
}

// ---------------------------------------------------------------------------
// Table dump
// ---------------------------------------------------------------------------

/// The dump line of type `i`.
pub open spec fn type_line(types: Seq<TypeKind>, i: int) -> Seq<char> {
    "  t"@ + decimal(i as nat) + " "@ + kind_text(types, types[i], types.len())
}

/// The dump line of an item type.
pub open spec fn item_type_line(it: ItemType) -> Seq<char> {
    "  "@ + "i"@ + decimal(it.item@ as nat) + " "@ + "s"@ + decimal(it.symbol@ as nat) + " "@
        + "t"@ + decimal(it.ty@ as nat)
}

/// The dump line of a local type.
pub open spec fn local_type_line(l: LocalType) -> Seq<char> {
    "  "@ + "l"@ + decimal(l.local@ as nat) + (if l.mutable {
        " mut"@
    } else {
        Seq::<char>::empty()
    }) + " "@ + l.name@ + " "@ + "t"@ + decimal(l.ty@ as nat) + " owner="@ + l.owner@
}

/// The dump line of an expression type.
pub open spec fn expr_type_line(e: ExprType) -> Seq<char> {
    "  "@ + range_text(e.span) + " "@ + "t"@ + decimal(e.ty@ as nat) + " owner="@ + e.owner@
}

/// The dump line of a substitution.
pub open spec fn substitution_line(s: TypeSubstitution) -> Seq<char> {
    "  "@ + range_text(s.span) + " "@ + s.generic@ + "="@ + "t"@ + decimal(s.replacement@ as nat)
}

/// A titled section of lines, omitted when it has no lines.
pub open spec fn titled(title: Seq<char>, lines: Seq<Seq<char>>) -> Seq<Seq<char>> {
    if lines.len() == 0 {
        Seq::empty()
    } else {
        seq![title] + lines
    }
}

/// Lines of a type table dump.
pub open spec fn type_table_lines(t: TypeTable) -> Seq<Seq<char>> {
    seq!["Types"@] + Seq::new(t.types@.len(), |i: int| type_line(t.types@, i)) + titled(
        "Items"@,
        t.items@.map_values(|it: ItemType| item_type_line(it)),
    ) + titled("Locals"@, t.locals@.map_values(|l: LocalType| local_type_line(l))) + titled(
        "Expressions"@,
        t.expressions@.map_values(|e: ExprType| expr_type_line(e)),
    ) + titled(
        "Substitutions"@,
        t.substitutions@.map_values(|s: TypeSubstitution| substitution_line(s)),
    )
}

/// Stable dump of a type table.
pub open spec fn type_table_dump(t: TypeTable) -> Seq<char> {
    join(type_table_lines(t), "\n"@)
}

fn push_section_title(lines: &mut Vec<String>, title: &str, nonempty: bool)
    ensures
        string_views(final(lines)@) == string_views(old(lines)@) + (if nonempty {
            seq![title@]
        } else {
            Seq::<Seq<char>>::empty()
        }),
{
    if nonempty {
        emit(lines, owned(title));
    } else {
        proof {
            assert(string_views(lines@) =~= string_views(lines@) + Seq::<Seq<char>>::empty());
        }
    }
}

impl TypeTable {
    /// Displays one type id of this table.
    pub fn display_type(&self, ty: TypeId) -> (r: String)
        ensures
            r@ == type_text(self.types@, ty@, self.types@.len() as nat),
    {
        type_string(&self.types, ty.get(), self.types.len())
    }

    /// Displays one type shape against this table.
    pub fn display_kind(&self, kind: &TypeKind) -> (r: String)
        ensures
            r@ == kind_text(self.types@, *kind, self.types@.len() as nat),
    {
        kind_string(&self.types, kind, self.types.len())
    }

    /// Renders a stable dump for snapshot tests and later compiler stages.
    pub fn dump(&self) -> (r: String)
        ensures
            r@ == type_table_dump(*self),
    {
        let mut lines: Vec<String> = Vec::new();
        emit(&mut lines, owned("Types"));
        self.push_type_lines(&mut lines);
        push_section_title(&mut lines, "Items", self.items.len() > 0);
        push_item_lines(&mut lines, &self.items);
        push_section_title(&mut lines, "Locals", self.locals.len() > 0);
        push_local_lines(&mut lines, &self.locals);
        push_section_title(&mut lines, "Expressions", self.expressions.len() > 0);
        push_expr_lines(&mut lines, &self.expressions);
        push_section_title(&mut lines, "Substitutions", self.substitutions.len() > 0);
        push_substitution_lines(&mut lines, &self.substitutions);
        proof {
            assert(string_views(lines@) =~= type_table_lines(*self));
        }
        let mut text = String::new();
        push_join(&mut text, &lines, "\n");
        proof {
            assert(text@ =~= type_table_dump(*self));
        }
        text
    }

    fn push_type_lines(&self, lines: &mut Vec<String>)
        ensures
            string_views(final(lines)@) == string_views(old(lines)@) + Seq::new(
                self.types@.len(),
                |i: int| type_line(self.types@, i),
            ),
    {
        let ghost base = string_views(lines@);
        let ghost tl = Seq::new(self.types@.len(), |i: int| type_line(self.types@, i));
        let mut i: usize = 0;
        proof {
            assert(base + tl.take(0) =~= base);
        }
        while i < self.types.len()
            invariant
                i <= self.types@.len(),
                tl == Seq::new(self.types@.len(), |i: int| type_line(self.types@, i)),
                string_views(lines@) == base + tl.take(i as int),
            decreases self.types@.len() - i,
        {
            let mut l = owned("  t");
            push_decimal(&mut l, i);
            l.append(" ");
            let k = self.display_kind(&self.types[i]);
            l.append(k.as_str());
            proof {
                assert(l@ =~= type_line(self.types@, i as int));
            }
            emit(lines, l);
            proof {
                assert(base + tl.take(i + 1) =~= base + tl.take(i as int) + seq![tl[i as int]]);
            }
            i = i + 1;
        }
        proof {
            assert(tl.take(self.types@.len() as int) =~= tl);
        }
    }
}

fn push_item_lines(lines: &mut Vec<String>, items: &Vec<ItemType>)
    ensures
        string_views(final(lines)@) == string_views(old(lines)@) + items@.map_values(
            |it: ItemType| item_type_line(it),
        ),
{
    let ghost b1 = string_views(lines@);
    let ghost il = items@.map_values(|it: ItemType| item_type_line(it));
    let mut j: usize = 0;
    proof {
        assert(b1 + il.take(0) =~= b1);
    }
    while j < items.len()
        invariant
            j <= items@.len(),
            il == items@.map_values(|it: ItemType| item_type_line(it)),
            string_views(lines@) == b1 + il.take(j as int),
        decreases items@.len() - j,
    {
        let it = items[j];
        let mut l = owned("  ");
        let a = it.item.dump_text();
        l.append(a.as_str());
        l.append(" ");
        let b = it.symbol.dump_text();
        l.append(b.as_str());
        l.append(" ");
        let c = it.ty.dump_text();
        l.append(c.as_str());
        proof {
            assert(l@ =~= item_type_line(it));
        }
        emit(lines, l);
        proof {
            assert(b1 + il.take(j + 1) =~= b1 + il.take(j as int) + seq![il[j as int]]);
        }
        j = j + 1;
    }
    proof {
        assert(il.take(items@.len() as int) =~= il);
    }
}

fn push_local_lines(lines: &mut Vec<String>, locals: &Vec<LocalType>)
    ensures
        string_views(final(lines)@) == string_views(old(lines)@) + locals@.map_values(
            |l: LocalType| local_type_line(l),
        ),
{
    let ghost b2 = string_views(lines@);
    let ghost ll = locals@.map_values(|l: LocalType| local_type_line(l));
    let mut k: usize = 0;
    proof {
        assert(b2 + ll.take(0) =~= b2);
    }
    while k < locals.len()
        invariant
            k <= locals@.len(),
            ll == locals@.map_values(|l: LocalType| local_type_line(l)),
            string_views(lines@) == b2 + ll.take(k as int),
        decreases locals@.len() - k,
    {
        let local = &locals[k];
        let mut l = owned("  ");
        let a = local.local.dump_text();
        l.append(a.as_str());
        if local.mutable {
            l.append(" mut");
        }
        l.append(" ");
        l.append(local.name.as_str());
        l.append(" ");
        let c = local.ty.dump_text();
        l.append(c.as_str());
        l.append(" owner=");
        l.append(local.owner.as_str());
        proof {
            assert(l@ =~= local_type_line(*local));
        }
        emit(lines, l);
        proof {
            assert(b2 + ll.take(k + 1) =~= b2 + ll.take(k as int) + seq![ll[k as int]]);
        }
        k = k + 1;
    }
    proof {
        assert(ll.take(locals@.len() as int) =~= ll);
    }
}

fn push_expr_lines(lines: &mut Vec<String>, expressions: &Vec<ExprType>)
    ensures
        string_views(final(lines)@) == string_views(old(lines)@) + expressions@.map_values(
            |e: ExprType| expr_type_line(e),
        ),
{
    let ghost b3 = string_views(lines@);
    let ghost el = expressions@.map_values(|e: ExprType| expr_type_line(e));
    let mut m: usize = 0;
    proof {
        assert(b3 + el.take(0) =~= b3);
    }
    while m < expressions.len()
        invariant
            m <= expressions@.len(),
            el == expressions@.map_values(|e: ExprType| expr_type_line(e)),
            string_views(lines@) == b3 + el.take(m as int),
        decreases expressions@.len() - m,
    {
        let e = &expressions[m];
        let mut l = owned("  ");
        crate::ast::push_range(&mut l, e.span);
        l.append(" ");
        let c = e.ty.dump_text();
        l.append(c.as_str());
        l.append(" owner=");
        l.append(e.owner.as_str());
        proof {
            assert(l@ =~= expr_type_line(*e));
        }
        emit(lines, l);
        proof {
            assert(b3 + el.take(m + 1) =~= b3 + el.take(m as int) + seq![el[m as int]]);
        }
        m = m + 1;
    }
    proof {
        assert(el.take(expressions@.len() as int) =~= el);
    }
}

fn push_substitution_lines(lines: &mut Vec<String>, substitutions: &Vec<TypeSubstitution>)
    ensures
        string_views(final(lines)@) == string_views(old(lines)@) + substitutions@.map_values(
            |s: TypeSubstitution| substitution_line(s),
        ),
{
    let ghost b4 = string_views(lines@);
    let ghost sl = substitutions@.map_values(|s: TypeSubstitution| substitution_line(s));
    let mut n: usize = 0;
    proof {
        assert(b4 + sl.take(0) =~= b4);
    }
    while n < substitutions.len()
        invariant
            n <= substitutions@.len(),
            sl == substitutions@.map_values(|s: TypeSubstitution| substitution_line(s)),
            string_views(lines@) == b4 + sl.take(n as int),
        decreases substitutions@.len() - n,
    {
        let s = &substitutions[n];
        let mut l = owned("  ");
        crate::ast::push_range(&mut l, s.span);
        l.append(" ");
        l.append(s.generic.as_str());
        l.append("=");
        let c = s.replacement.dump_text();
        l.append(c.as_str());
        proof {
            assert(l@ =~= substitution_line(*s));
        }
        emit(lines, l);
        proof {
            assert(b4 + sl.take(n + 1) =~= b4 + sl.take(n as int) + seq![sl[n as int]]);
        }
        n = n + 1;
    }
    proof {
        assert(sl.take(substitutions@.len() as int) =~= sl);
    }
}

// ---------------------------------------------------------------------------
// Diagnostics
// ---------------------------------------------------------------------------

/// Type mismatch diagnostic.
pub const MD_TYPE_MISMATCH: &'static str = "MD0401";

/// Assignment to immutable binding diagnostic.
pub const MD_IMMUTABLE_ASSIGNMENT: &'static str = "MD0402";

/// Invalid generic argument count diagnostic.
pub const MD_INVALID_TYPE_ARITY: &'static str = "MD0403";

/// Calling a non-function value diagnostic.
pub const MD_NOT_CALLABLE: &'static str = "MD0404";

/// Invalid call argument count diagnostic.
pub const MD_CALL_ARITY: &'static str = "MD0405";

/// Missing trait method diagnostic.
pub const MD_MISSING_TRAIT_METHOD: &'static str = "MD0406";

/// Invalid trait impl diagnostic.
pub const MD_INVALID_IMPL: &'static str = "MD0407";

/// Invalid operator operand diagnostic.
pub const MD_INVALID_OPERATOR: &'static str = "MD0408";

/// Invalid assignment target diagnostic.
pub const MD_INVALID_ASSIGNMENT_TARGET: &'static str = "MD0409";

/// Non-exhaustive match diagnostic.
pub const MD_NON_EXHAUSTIVE_MATCH: &'static str = "MD0410";

/// Invalid pattern diagnostic.
pub const MD_INVALID_PATTERN: &'static str = "MD0411";

/// Invalid `?` usage diagnostic.
pub const MD_INVALID_TRY: &'static str = "MD0412";

/// Invalid `core.log` format string diagnostic.
pub const MD_INVALID_LOG_FORMAT: &'static str = "MD0413";

/// One of the type checker's codes.
pub open spec fn is_type_code(c: Seq<char>) -> bool {
    ||| c == MD_TYPE_MISMATCH@
    ||| c == MD_IMMUTABLE_ASSIGNMENT@
    ||| c == MD_INVALID_TYPE_ARITY@
    ||| c == MD_NOT_CALLABLE@
    ||| c == MD_CALL_ARITY@
    ||| c == MD_MISSING_TRAIT_METHOD@
    ||| c == MD_INVALID_IMPL@
    ||| c == MD_INVALID_OPERATOR@
    ||| c == MD_INVALID_ASSIGNMENT_TARGET@
    ||| c == MD_NON_EXHAUSTIVE_MATCH@
    ||| c == MD_INVALID_PATTERN@
    ||| c == MD_INVALID_TRY@
    ||| c == MD_INVALID_LOG_FORMAT@
}

/// A diagnostic the type checker reports: one of its codes, an error, with one note.
pub open spec fn is_type_diagnostic(d: DiagnosticView) -> bool {
    &&& is_type_code(d.code)
    &&& d.severity == DiagnosticSeverity::Error
    &&& d.notes.len() == 1
}

/// The type checker's codes follow the diagnostic code rule, all in the `MD04xx` range.
pub proof fn lemma_type_codes_valid(c: Seq<char>)
    requires
        is_type_code(c),
    ensures
        is_valid_code(c),
        c[2] == '0' && c[3] == '4',
{
    reveal_strlit("MD0401");
    reveal_strlit("MD0402");
    reveal_strlit("MD0403");
    reveal_strlit("MD0404");
    reveal_strlit("MD0405");
    reveal_strlit("MD0406");
    reveal_strlit("MD0407");
    reveal_strlit("MD0408");
    reveal_strlit("MD0409");
    reveal_strlit("MD0410");
    reveal_strlit("MD0411");
    reveal_strlit("MD0412");
    reveal_strlit("MD0413");
}

/// The stage that reports a diagnostic: syntax, then resolution, then type checking.
pub open spec fn diag_stage(d: DiagnosticView) -> int {
    if is_syntax_diagnostic(d) {
        0
    } else if is_resolver_diagnostic(d) {
        1
    } else if is_type_diagnostic(d) {
        2
    } else {
        3
    }
}

/// Every diagnostic comes from one of the three front-end stages, in stage order.
pub open spec fn diags_in_stage_order(d: Seq<Diagnostic>) -> bool {
    &&& forall|k: int| 0 <= k < d.len() ==> diag_stage(#[trigger] d[k]@) <= 2
    &&& forall|j: int, k: int|
        0 <= j < k < d.len() ==> diag_stage(#[trigger] d[j]@) <= diag_stage(#[trigger] d[k]@)
}

/// Type diagnostics are neither syntax nor resolver diagnostics.
pub proof fn lemma_type_diagnostic_stage(d: DiagnosticView)
    requires
        is_type_diagnostic(d),
    ensures
        diag_stage(d) == 2,
{
    lemma_type_codes_valid(d.code);
    reveal_strlit("MD0301");
    reveal_strlit("MD0302");
    reveal_strlit("MD0303");
    if is_resolver_diagnostic(d) {
        assert(d.code[3] == '3');
    }
}

// ---------------------------------------------------------------------------
// Well-formed tables
// ---------------------------------------------------------------------------

/// Every index is below `n`.
pub open spec fn below(v: Seq<usize>, n: int) -> bool {
    forall|i: int| 0 <= i < v.len() ==> #[trigger] v[i] < n
}

/// Every id refers to a type with an index below `n`.
pub open spec fn ids_below(v: Seq<TypeId>, n: int) -> bool {
    forall|i: int| 0 <= i < v.len() ==> (#[trigger] v[i])@ < n
}

/// Bounds on ids are bounds on their indexes.
pub proof fn lemma_ids_below(v: Seq<TypeId>, n: int)
    ensures
        ids_below(v, n) == below(type_ids(v), n),
{
    if ids_below(v, n) {
        assert forall|i: int| 0 <= i < type_ids(v).len() implies #[trigger] type_ids(v)[i] < n by {
            assert(type_ids(v)[i] == v[i]@);
        }
    }
    if below(type_ids(v), n) {
        assert forall|i: int| 0 <= i < v.len() implies (#[trigger] v[i])@ < n by {
            assert(type_ids(v)[i] == v[i]@);
        }
    }
}

/// Every type a shape refers to has an index below `n`.
pub open spec fn kind_below(k: TypeKindView, n: int) -> bool {
    match k {
        TypeKindView::Nominal { args, .. } => below(args, n),
        TypeKindView::Function { params, return_type, .. } => below(params, n) && return_type < n,
        _ => true,
    }
}

/// Each type refers only to types interned before it.
pub open spec fn types_ordered(types: Seq<TypeKind>) -> bool {
    forall|i: int| 0 <= i < types.len() ==> kind_below(#[trigger] types[i]@, i)
}

/// Interned types: no type occurs twice in the table.
pub open spec fn types_distinct(types: Seq<TypeKind>) -> bool {
    forall|i: int, j: int| 0 <= i < j < types.len() ==> (#[trigger] types[i])@ != (#[trigger] types[j])@
}

/// A type table whose types are interned, refer only to earlier types, and whose entries refer
/// only to interned types.
pub open spec fn type_table_wf(t: TypeTable) -> bool {
    let n = t.types@.len() as int;
    &&& types_ordered(t.types@)
    &&& types_distinct(t.types@)
    &&& forall|i: int| 0 <= i < t.items@.len() ==> (#[trigger] t.items@[i]).ty@ < n
    &&& forall|i: int| 0 <= i < t.locals@.len() ==> (#[trigger] t.locals@[i]).ty@ < n
    &&& forall|i: int| 0 <= i < t.expressions@.len() ==> (#[trigger] t.expressions@[i]).ty@ < n
    &&& forall|i: int|
        0 <= i < t.substitutions@.len() ==> (#[trigger] t.substitutions@[i]).replacement@ < n
}

/// The `(item id, symbol)` keys of the items of a sequence of modules, in order.
pub open spec fn modules_item_keys(ms: Seq<HirModule>) -> Seq<(usize, usize)>
    decreases ms.len(),
{
    if ms.len() == 0 {
        Seq::empty()
    } else {
        modules_item_keys(ms.drop_last()) + item_keys(ms.last().items@)
    }
}

/// The `(item id, symbol)` keys of a sequence of items.
pub open spec fn item_keys(items: Seq<HirItem>) -> Seq<(usize, usize)> {
    items.map_values(|it: HirItem| (it.id@, it.symbol@))
}

/// The `(item id, symbol)` keys of a sequence of item types.
pub open spec fn item_type_keys(items: Seq<ItemType>) -> Seq<(usize, usize)> {
    items.map_values(|it: ItemType| (it.item@, it.symbol@))
}

/// Type checker output.
#[derive(Debug)]
pub struct TypeCheckResult {
    /// HIR package that was checked.
    pub package: HirPackage,
    /// Type table and typed expression/local data.
    pub type_table: TypeTable,
    /// Parser, resolver, and type diagnostics in stable order.
    pub diagnostics: Vec<Diagnostic>,
}

impl TypeCheckResult {
    /// Renders a stable typed dump.
    pub fn dump(&self) -> (r: String)
        ensures
            r@ == type_table_dump(self.type_table),
    {
        self.type_table.dump()
    }
}

/// What every checker result satisfies: the table is well formed, holds one entry per top-level
/// item in package order, and every diagnostic is a type diagnostic.
pub open spec fn checked_package_wf(r: TypeCheckResult) -> bool {
    &&& type_table_wf(r.type_table)
    &&& item_type_keys(r.type_table.items@) == modules_item_keys(r.package.modules@)
}

/// What the results of checking sources with the given ids satisfy.
pub open spec fn type_check_result_wf(r: TypeCheckResult, ids: Seq<usize>) -> bool {
    &&& resolved_package_wf(r.package, ids)
    &&& checked_package_wf(r)
    &&& diags_in_stage_order(r.diagnostics@)
}

/// Type checker facade.
#[derive(Clone, Copy, Debug, Default, PartialEq, Eq, Structural)]
pub struct TypeChecker;

impl TypeChecker {
    /// Creates a type checker.
    pub fn new() -> (r: Self) {
        TypeChecker
    }

    /// Resolves and type-checks one source file.
    pub fn check_source(&self, source: &SourceFile) -> (r: TypeCheckResult)
        ensures
            type_check_result_wf(r, seq![source@.id@]),
    {
        let sources: Vec<&SourceFile> = vec![source];
        let r = self.check_sources(sources.as_slice());
        proof {
            assert(source_ids(sources@) =~= seq![source@.id@]);
        }
        r
    }

    /// Resolves and type-checks a set of source files as one package.
    pub fn check_sources(&self, sources: &[&SourceFile]) -> (r: TypeCheckResult)
        ensures
            type_check_result_wf(r, source_ids(sources@)),
            exists|parts: Seq<Seq<DiagnosticView>>|
                #![trigger concat_diags(parts)]
                parts.len() == sources@.len() && (forall|i: int|
                    0 <= i < parts.len() ==> parse_reports(*sources@[i], #[trigger] parts[i]))
                    && diagnostic_views(r.diagnostics@).len() >= concat_diags(parts).len() && diagnostic_views(
                    r.diagnostics@,
                ).take(concat_diags(parts).len() as int) == concat_diags(parts),
    {
        let resolved = resolve_sources(sources);
        let crate::resolver::ResolveResult { package, diagnostics } = resolved;
        let checked = self.check_package(package, sources);
        let TypeCheckResult { package, type_table, diagnostics: type_diags } = checked;
        let mut all = diagnostics;
        let ghost first = all@;
        let mut rest = type_diags;
        all.append(&mut rest);
        proof {
            lemma_stage_order_concat(first, type_diags@);
            let parts = choose|parts: Seq<Seq<DiagnosticView>>|
                #![trigger concat_diags(parts)]
                parts.len() == sources@.len() && (forall|i: int|
                    0 <= i < parts.len() ==> parse_reports(*sources@[i], #[trigger] parts[i]))
                    && diagnostic_views(first).len() >= concat_diags(parts).len() && diagnostic_views(first).take(
                    concat_diags(parts).len() as int,
                ) == concat_diags(parts);
            let n = concat_diags(parts).len() as int;
            assert(diagnostic_views(all@).take(n) =~= diagnostic_views(first).take(n));
        }
        TypeCheckResult { package, type_table, diagnostics: all }
    }

    /// Type-checks an already resolved package.
    pub fn check_package(&self, package: HirPackage, sources: &[&SourceFile]) -> (r:
        TypeCheckResult)
        ensures
            r.package == package,
            checked_package_wf(r),
            forall|k: int| 0 <= k < r.diagnostics@.len() ==> is_type_diagnostic(
                #[trigger] r.diagnostics@[k]@,
            ),
    {
        let (type_table, diagnostics) = {
            let session = TypeSession::new(&package, sources);
            session.check()
        };
        TypeCheckResult { package, type_table, diagnostics }
    }
}

proof fn lemma_stage_order_concat(first: Seq<Diagnostic>, rest: Seq<Diagnostic>)
    requires
        forall|k: int| 0 <= k < first.len() ==> is_syntax_diagnostic(#[trigger] first[k]@)
            || is_resolver_diagnostic(first[k]@),
        forall|j: int, k: int|
            0 <= j < k < first.len() && is_resolver_diagnostic(#[trigger] first[j]@)
                ==> is_resolver_diagnostic(#[trigger] first[k]@),
        forall|k: int| 0 <= k < rest.len() ==> is_type_diagnostic(#[trigger] rest[k]@),
    ensures
        diags_in_stage_order(first + rest),
{
    let all = first + rest;
    assert forall|k: int| 0 <= k < all.len() implies diag_stage(#[trigger] all[k]@) <= 2 by {
        if k >= first.len() {
            assert(all[k] == rest[k - first.len()]);
            lemma_type_diagnostic_stage(rest[k - first.len()]@);
        }
    }
    assert forall|j: int, k: int| 0 <= j < k < all.len() implies diag_stage(#[trigger] all[j]@)
        <= diag_stage(#[trigger] all[k]@) by {
        if k >= first.len() {
            assert(all[k] == rest[k - first.len()]);
            lemma_type_diagnostic_stage(rest[k - first.len()]@);
            if j >= first.len() {
                assert(all[j] == rest[j - first.len()]);
                lemma_type_diagnostic_stage(rest[j - first.len()]@);
            }
        } else {
            assert(all[k] == first[k]);
            assert(all[j] == first[j]);
            lemma_syntax_not_resolver(first[j]@);
            lemma_syntax_not_resolver(first[k]@);
        }
    }
}

/// Resolves and type-checks one source file.
pub fn check_source(source: &SourceFile) -> (r: TypeCheckResult)
    ensures
        type_check_result_wf(r, seq![source@.id@]),
{
    TypeChecker::new().check_source(source)
}

/// Resolves and type-checks a set of source files as one package.
pub fn check_sources(sources: &[&SourceFile]) -> (r: TypeCheckResult)
    ensures
        type_check_result_wf(r, source_ids(sources@)),
        exists|parts: Seq<Seq<DiagnosticView>>|
            #![trigger concat_diags(parts)]
            parts.len() == sources@.len() && (forall|i: int|
                0 <= i < parts.len() ==> parse_reports(*sources@[i], #[trigger] parts[i]))
                && diagnostic_views(r.diagnostics@).len() >= concat_diags(parts).len() && diagnostic_views(
                r.diagnostics@,
            ).take(concat_diags(parts).len() as int) == concat_diags(parts),
{
    TypeChecker::new().check_sources(sources)
}

// ---------------------------------------------------------------------------
// Checker session
// ---------------------------------------------------------------------------

/// Largest nesting of one unification, beyond which it stops without a report.
const UNIFY_DEPTH: usize = 4096;

struct FunctionSig {
    name: String,
    generics: Vec<String>,
    params: Vec<TypeId>,
    return_type: TypeId,
    span: TextRange,
}

struct TraitInfo {
    name: String,
    generics: Vec<String>,
    methods: Vec<FunctionSig>,
}

struct VariantInfo {
    enum_symbol: SymbolId,
    enum_generics: Vec<String>,
    name: String,
    fields: Vec<TypeId>,
}

struct BindingInfo {
    name: String,
    mutable: bool,
    ty: TypeId,
}

struct BodyContext {
    source_id: SourceId,
    owner: String,
    return_type: TypeId,
    bindings: Vec<(LocalId, BindingInfo)>,
}

enum PatternCoverage {
    All,
    Variant(SymbolId),
    Partial,
}

spec fn sig_below(s: FunctionSig, n: int) -> bool {
    &&& ids_below(s.params@, n)
    &&& s.return_type@ < n
}

spec fn context_below(c: BodyContext, n: int) -> bool {
    &&& c.return_type@ < n
    &&& forall|k: int| 0 <= k < c.bindings@.len() ==> (#[trigger] c.bindings@[k]).1.ty@ < n
}

spec fn subst_below(s: Seq<(String, TypeId)>, n: int) -> bool {
    forall|k: int| 0 <= k < s.len() ==> (#[trigger] s[k]).1@ < n
}

fn copy_ids(v: &Vec<TypeId>) -> (r: Vec<TypeId>)
    ensures
        r@ == v@,
{
    let mut out: Vec<TypeId> = Vec::new();
    let mut i: usize = 0;
    while i < v.len()
        invariant
            i <= v@.len(),
            out@ == v@.take(i as int),
        decreases v@.len() - i,
    {
        out.push(v[i]);
        proof {
            assert(v@.take(i + 1) =~= v@.take(i as int).push(v@[i as int]));
        }
        i = i + 1;
    }
    proof {
        assert(v@.take(v@.len() as int) =~= v@);
    }
    out
}

fn copy_sig(s: &FunctionSig) -> (r: FunctionSig)
    ensures
        r.params@ == s.params@,
        r.return_type == s.return_type,
        r.name@ == s.name@,
        string_views(r.generics@) == string_views(s.generics@),
        r.span == s.span,
{
    FunctionSig {
        name: s.name.clone(),
        generics: copy_strings(&s.generics),
        params: copy_ids(&s.params),
        return_type: s.return_type,
        span: s.span,
    }
}

fn copy_kind(k: &TypeKind) -> (r: TypeKind)
    ensures
        r@ == k@,
{
    match k {
        TypeKind::Error => TypeKind::Error,
        TypeKind::Unit => TypeKind::Unit,
        TypeKind::I32 => TypeKind::I32,
        TypeKind::Bool => TypeKind::Bool,
        TypeKind::String => TypeKind::String,
        TypeKind::Generic(name) => TypeKind::Generic(name.clone()),
        TypeKind::Infer(name) => TypeKind::Infer(name.clone()),
        TypeKind::Nominal { symbol, args } => TypeKind::Nominal {
            symbol: *symbol,
            args: copy_ids(args),
        },
        TypeKind::Function { generics, params, return_type } => TypeKind::Function {
            generics: copy_strings(generics),
            params: copy_ids(params),
            return_type: *return_type,
        },
    }
}

fn ids_eq(a: &Vec<TypeId>, b: &Vec<TypeId>) -> (r: bool)
    ensures
        r == (type_ids(a@) == type_ids(b@)),
{
    if a.len() != b.len() {
        proof {
            assert(type_ids(a@).len() != type_ids(b@).len());
        }
        return false;
    }
    let mut i: usize = 0;
    while i < a.len()
        invariant
            i <= a@.len(),
            a@.len() == b@.len(),
            forall|j: int| 0 <= j < i ==> a@[j]@ == b@[j]@,
        decreases a@.len() - i,
    {
        if a[i].get() != b[i].get() {
            proof {
                assert(type_ids(a@)[i as int] != type_ids(b@)[i as int]);
            }
            return false;
        }
        i = i + 1;
    }
    proof {
        assert(type_ids(a@) =~= type_ids(b@));
    }
    true
}

fn strings_eq(a: &Vec<String>, b: &Vec<String>) -> (r: bool)
    ensures
        r == (string_views(a@) == string_views(b@)),
{
    if a.len() != b.len() {
        proof {
            assert(string_views(a@).len() != string_views(b@).len());
        }
        return false;
    }
    let mut i: usize = 0;
    while i < a.len()
        invariant
            i <= a@.len(),
            a@.len() == b@.len(),
            forall|j: int| 0 <= j < i ==> a@[j]@ == b@[j]@,
        decreases a@.len() - i,
    {
        if !str_eq(a[i].as_str(), b[i].as_str()) {
            proof {
                assert(string_views(a@)[i as int] != string_views(b@)[i as int]);
            }
            return false;
        }
        i = i + 1;
    }
    proof {
        assert(string_views(a@) =~= string_views(b@));
    }
    true
}

fn kind_eq(a: &TypeKind, b: &TypeKind) -> (r: bool)
    ensures
        r == (a@ == b@),
{
    match (a, b) {
        (TypeKind::Error, TypeKind::Error) => true,
        (TypeKind::Unit, TypeKind::Unit) => true,
        (TypeKind::I32, TypeKind::I32) => true,
        (TypeKind::Bool, TypeKind::Bool) => true,
        (TypeKind::String, TypeKind::String) => true,
        (TypeKind::Generic(x), TypeKind::Generic(y)) => str_eq(x.as_str(), y.as_str()),
        (TypeKind::Infer(x), TypeKind::Infer(y)) => str_eq(x.as_str(), y.as_str()),
        (
            TypeKind::Nominal { symbol: s1, args: a1 },
            TypeKind::Nominal { symbol: s2, args: a2 },
        ) => s1.get() == s2.get() && ids_eq(a1, a2),
        (
            TypeKind::Function { generics: g1, params: p1, return_type: r1 },
            TypeKind::Function { generics: g2, params: p2, return_type: r2 },
        ) => r1.get() == r2.get() && strings_eq(g1, g2) && ids_eq(p1, p2),
        _ => false,
    }
}

/// `unify` has nothing to do: no depth left, an unknown or error type, or the same type.
pub open spec fn unify_skips(types: Seq<TypeKind>, expected: TypeId, actual: TypeId, depth: usize) -> bool {
    ||| depth == 0
    ||| expected@ >= types.len()
    ||| actual@ >= types.len()
    ||| types[expected@ as int]@ == TypeKindView::Error
    ||| types[actual@ as int]@ == TypeKindView::Error
    ||| expected@ == actual@
}

/// Two types that can never be made equal: neither is an inference variable, and they differ
/// in kind, in their nominal head, or in their generic name.
pub open spec fn unify_clash(expected: TypeKindView, actual: TypeKindView) -> bool {
    match (expected, actual) {
        (TypeKindView::Infer(_), _) | (_, TypeKindView::Infer(_)) => false,
        (TypeKindView::Nominal { symbol: s1, args: a1 }, TypeKindView::Nominal { symbol: s2, args: a2 }) => s1 != s2
            || a1.len() != a2.len(),
        (TypeKindView::Generic(n1), TypeKindView::Generic(n2)) => n1 != n2,
        _ => true,
    }
}

/// What is reported when an impl lacks a method that its trait requires.
pub open spec fn missing_method_message(trait_name: Seq<char>, method: Seq<char>) -> Seq<char> {
    "impl 缺少 trait `"@ + trait_name + "` 要求的方法 `"@ + method + "`"@
}

/// Some method of an impl has the given name.
pub open spec fn has_method_named(methods: Seq<HirFunction>, name: Seq<char>) -> bool {
    exists|m: int| 0 <= m < methods.len() && (#[trigger] methods[m]).name@ == name
}

/// A diagnostic with this code and message was added after the first `before.len()`.
pub open spec fn reported_since(before: Seq<Diagnostic>, after: Seq<Diagnostic>, code: Seq<char>, message: Seq<char>) -> bool {
    exists|d: int|
        before.len() <= d < after.len() && (#[trigger] after[d])@.code == code && after[d]@.message == message
}

proof fn lemma_reported_persists(before: Seq<Diagnostic>, mid: Seq<Diagnostic>, after: Seq<Diagnostic>, code: Seq<char>, message: Seq<char>)
    requires
        reported_since(before, mid, code, message),
        after.len() >= mid.len(),
        forall|i: int| 0 <= i < mid.len() ==> #[trigger] after[i] == mid[i],
    ensures
        reported_since(before, after, code, message),
{
    let d = choose|d: int|
        before.len() <= d < mid.len() && (#[trigger] mid[d])@.code == code && mid[d]@.message == message;
    assert(after[d] == mid[d]);
}

/// A type without type arguments or type variables.
pub open spec fn is_scalar_kind(k: TypeKindView) -> bool {
    k is Error || k is Unit || k is I32 || k is Bool || k is String
}

/// The name of a generic parameter or an inference variable.
pub open spec fn type_var_name(k: TypeKindView) -> Option<Seq<char>> {
    match k {
        TypeKindView::Generic(n) | TypeKindView::Infer(n) => Some(n),
        _ => None,
    }
}

/// Entry `k` is the first substitution for `name`.
pub open spec fn first_named(subst: Seq<(String, TypeId)>, name: Seq<char>, k: int) -> bool {
    &&& 0 <= k < subst.len()
    &&& subst[k].0@ == name
    &&& forall|j: int| 0 <= j < k ==> subst[j].0@ != name
}

/// A rewritten nominal or function type keeps its head: the same symbol and number of
/// arguments, or the same generics and number of parameters.
pub open spec fn same_shape(before: TypeKindView, after: TypeKindView) -> bool {
    &&& before matches TypeKindView::Nominal { symbol, args } ==> after matches TypeKindView::Nominal {
        symbol: s2,
        args: a2,
    } && s2 == symbol && a2.len() == args.len()
    &&& before matches TypeKindView::Function { generics, params, .. } ==> after matches TypeKindView::Function {
        generics: g2,
        params: p2,
        ..
    } && g2 == generics && p2.len() == params.len()
}

fn contains_string(names: &Vec<String>, name: &str) -> (r: bool)
    ensures
        r == exists|k: int| 0 <= k < names@.len() && (#[trigger] names@[k])@ == name@,
{
    let mut i: usize = 0;
    while i < names.len()
        invariant
            i <= names@.len(),
            forall|k: int| 0 <= k < i ==> (#[trigger] names@[k])@ != name@,
        decreases names@.len() - i,
    {
        if str_eq(names[i].as_str(), name) {
            return true;
        }
        i = i + 1;
    }
    false
}

fn generic_scope(outer: &Vec<String>, inner: &Vec<String>) -> (r: Vec<String>)
    ensures
        string_views(r@) == string_views(outer@) + string_views(inner@),
{
    let mut out = copy_strings(outer);
    let mut i: usize = 0;
    while i < inner.len()
        invariant
            i <= inner@.len(),
            string_views(out@) == string_views(outer@) + string_views(inner@).take(i as int),
        decreases inner@.len() - i,
    {
        let ghost before = out@;
        out.push(inner[i].clone());
        proof {
            assert(string_views(out@) =~= string_views(before).push(inner@[i as int]@));
            assert(string_views(inner@).take(i + 1) =~= string_views(inner@).take(i as int).push(
                inner@[i as int]@,
            ));
        }
        i = i + 1;
    }
    proof {
        assert(string_views(inner@).take(inner@.len() as int) =~= string_views(inner@));
    }
    out
}

fn subst_get(subst: &Vec<(String, TypeId)>, name: &str) -> (r: Option<TypeId>)
    ensures
        r matches Some(t) ==> exists|k: int| 0 <= k < subst@.len() && (#[trigger] subst@[k]).1 == t,
        r matches Some(t) ==> exists|k: int|
            0 <= k < subst@.len() && (#[trigger] subst@[k]).0@ == name@ && subst@[k].1 == t
                && forall|j: int| 0 <= j < k ==> subst@[j].0@ != name@,
        r is None <==> forall|k: int| 0 <= k < subst@.len() ==> (#[trigger] subst@[k]).0@ != name@,
{
    let mut i: usize = 0;
    while i < subst.len()
        invariant
            i <= subst@.len(),
            forall|j: int| 0 <= j < i ==> (#[trigger] subst@[j]).0@ != name@,
        decreases subst@.len() - i,
    {
        if str_eq(subst[i].0.as_str(), name) {
            return Some(subst[i].1);
        }
        i = i + 1;
    }
    None
}

fn binding_index(bindings: &Vec<(LocalId, BindingInfo)>, local: LocalId) -> (r: Option<usize>)
    ensures
        r matches Some(k) ==> k < bindings@.len() && bindings@[k as int].0@ == local@ && forall|j: int|
            0 <= j < k ==> (#[trigger] bindings@[j]).0@ != local@,
        r is None <==> forall|k: int| 0 <= k < bindings@.len() ==> (#[trigger] bindings@[k]).0@ != local@,
{
    let mut i: usize = 0;
    while i < bindings.len()
        invariant
            i <= bindings@.len(),
            forall|j: int| 0 <= j < i ==> (#[trigger] bindings@[j]).0@ != local@,
        decreases bindings@.len() - i,
    {
        if bindings[i].0.get() == local.get() {
            return Some(i);
        }
        i = i + 1;
    }
    None
}

fn copy_bindings(bindings: &Vec<(LocalId, BindingInfo)>) -> (r: Vec<(LocalId, BindingInfo)>)
    ensures
        r@.len() == bindings@.len(),
        forall|k: int| 0 <= k < r@.len() ==> (#[trigger] r@[k]).1.ty == bindings@[k].1.ty,
{
    let mut out: Vec<(LocalId, BindingInfo)> = Vec::new();
    let mut i: usize = 0;
    while i < bindings.len()
        invariant
            i <= bindings@.len(),
            out@.len() == i,
            forall|k: int| 0 <= k < i ==> (#[trigger] out@[k]).1.ty == bindings@[k].1.ty,
        decreases bindings@.len() - i,
    {
        let b = &bindings[i].1;
        out.push(
            (bindings[i].0, BindingInfo { name: b.name.clone(), mutable: b.mutable, ty: b.ty }),
        );
        i = i + 1;
    }
    out
}

/// Inserts or replaces the binding of a local.
fn bind_local(context: &mut BodyContext, local: LocalId, name: String, mutable: bool, ty: TypeId)
    ensures
        final(context).source_id == old(context).source_id,
        final(context).owner@ == old(context).owner@,
        final(context).return_type == old(context).return_type,
        forall|n: int| context_below(*old(context), n) && ty@ < n ==> context_below(
            *final(context),
            n,
        ),
        (exists|i: int|
            0 <= i < old(context).bindings@.len() && (#[trigger] old(context).bindings@[i]).0@ == local@
                && (forall|j: int| 0 <= j < i ==> old(context).bindings@[j].0@ != local@)
                && final(context).bindings@.len() == old(context).bindings@.len()
                && final(context).bindings@[i].0 == local
                && final(context).bindings@[i].1.name@ == name@ && final(context).bindings@[i].1.mutable == mutable
                && final(context).bindings@[i].1.ty == ty
                && forall|k: int| 0 <= k < old(context).bindings@.len() && k != i ==> final(context).bindings@[k] == old(context).bindings@[k])
        || ((forall|k: int| 0 <= k < old(context).bindings@.len() ==> (#[trigger] old(context).bindings@[k]).0@ != local@)
            && final(context).bindings@.drop_last() == old(context).bindings@
            && final(context).bindings@.len() == old(context).bindings@.len() + 1
            && final(context).bindings@.last().0 == local && final(context).bindings@.last().1.name@ == name@
            && final(context).bindings@.last().1.mutable == mutable && final(context).bindings@.last().1.ty == ty),
{
    let info = BindingInfo { name, mutable, ty };
    match binding_index(&context.bindings, local) {
        Some(k) => {
            context.bindings.set(k, (local, info));
        },
        None => {
            context.bindings.push((local, info));
        },
    }
}

/// The span of an expression.
pub open spec fn hir_expr_span(e: HirExpr) -> TextRange {
    match e {
        HirExpr::Missing { span } => span,
        HirExpr::Literal { span, .. } => span,
        HirExpr::Path { span, .. } => span,
        HirExpr::Call { span, .. } => span,
        HirExpr::Block(block) => block.span,
        HirExpr::If { span, .. } => span,
        HirExpr::Match { span, .. } => span,
        HirExpr::Binary { span, .. } => span,
        HirExpr::Try { span, .. } => span,
    }
}

/// Returns the span of an expression.
pub fn expr_span(expr: &HirExpr) -> (r: TextRange)
    ensures
        r == hir_expr_span(*expr),
{
    match expr {
        HirExpr::Missing { span } => *span,
        HirExpr::Literal { span, .. } => *span,
        HirExpr::Path { span, .. } => *span,
        HirExpr::Call { span, .. } => *span,
        HirExpr::Block(block) => block.span,
        HirExpr::If { span, .. } => *span,
        HirExpr::Match { span, .. } => *span,
        HirExpr::Binary { span, .. } => *span,
        HirExpr::Try { span, .. } => *span,
    }
}

fn should_check_body_tail(block: &HirBlock) -> (r: bool)
    ensures
        r == ((block.statements@.len() > 0 && block.statements@.last() is Expr) || forall|i: int|
            0 <= i < block.statements@.len() ==> !(#[trigger] block.statements@[i] is Return)),
{
    let n = block.statements.len();
    if n > 0 {
        if let HirStatement::Expr(_) = &block.statements[n - 1] {
            return true;
        }
    }
    let mut i: usize = 0;
    while i < n
        invariant
            i <= n,
            n == block.statements@.len(),
            !(n > 0 && block.statements@.last() is Expr),
            forall|j: int| 0 <= j < i ==> !(#[trigger] block.statements@[j] is Return),
        decreases n - i,
    {
        if let HirStatement::Return { .. } = &block.statements[i] {
            return false;
        }
        i = i + 1;
    }
    true
}

fn literal_prefix(text: &str, prefix: &str) -> (r: bool)
    ensures
        r == (text@.len() >= prefix@.len() && text@.take(prefix@.len() as int) == prefix@),
{
    let t = crate::text::collect_chars(text);
    let p = crate::text::collect_chars(prefix);
    if t.len() < p.len() {
        return false;
    }
    let mut i: usize = 0;
    while i < p.len()
        invariant
            t@ == text@,
            p@ == prefix@,
            t@.len() >= p@.len(),
            i <= p@.len(),
            forall|j: int| 0 <= j < i ==> t@[j] == p@[j],
        decreases p@.len() - i,
    {
        if t[i] != p[i] {
            proof {
                assert(text@.take(prefix@.len() as int)[i as int] != prefix@[i as int]);
            }
            return false;
        }
        i = i + 1;
    }
    proof {
        assert(text@.take(prefix@.len() as int) =~= prefix@);
    }
    true
}

fn find_kind(types: &Vec<TypeKind>, kind: &TypeKind) -> (r: Option<usize>)
    ensures
        r matches Some(k) ==> k < types@.len() && types@[k as int]@ == kind@ && forall|j: int|
            0 <= j < k ==> (#[trigger] types@[j])@ != kind@,
        r is None <==> forall|k: int| 0 <= k < types@.len() ==> (#[trigger] types@[k])@ != kind@,
{
    let mut i: usize = 0;
    while i < types.len()
        invariant
            i <= types@.len(),
            forall|j: int| 0 <= j < i ==> (#[trigger] types@[j])@ != kind@,
        decreases types@.len() - i,
    {
        if kind_eq(&types[i], kind) {
            return Some(i);
        }
        i = i + 1;
    }
    None
}

/// The resolved span of `range` in the last of the first `n` sources with id `id`, if any.
spec fn span_in_sources(sources: Seq<&SourceFile>, id: SourceId, range: TextRange, n: int) -> Option<SpanView>
    decreases n,
{
    if n <= 0 {
        None
    } else if sources[n - 1]@.id@ == id@ {
        resolved_span(*sources[n - 1], range)
    } else {
        span_in_sources(sources, id, range, n - 1)
    }
}

/// The type a builtin name denotes.
pub open spec fn builtin_kind(b: BuiltinType) -> TypeKindView {
    match b {
        BuiltinType::Int | BuiltinType::I32 => TypeKindView::I32,
        BuiltinType::Bool | BuiltinType::BoolLower => TypeKindView::Bool,
        BuiltinType::String => TypeKindView::String,
        BuiltinType::Unit => TypeKindView::Unit,
    }
}

/// `after` is `before` with the entry of `key` set to `value`: the first entry of the key is
/// replaced in place, or a new entry is appended when there was none.
spec fn upserted<T>(before: Seq<(SymbolId, T)>, key: SymbolId, value: T, after: Seq<(SymbolId, T)>) -> bool {
    ||| exists|i: int|
        0 <= i < before.len() && (#[trigger] before[i]).0@ == key@ && (forall|j: int|
            0 <= j < i ==> before[j].0@ != key@) && after == before.update(i, (key, value))
    ||| (forall|k: int| 0 <= k < before.len() ==> (#[trigger] before[k]).0@ != key@) && after
        == before.push((key, value))
}

fn find_symbol<T>(entries: &Vec<(SymbolId, T)>, symbol: SymbolId) -> (r: Option<usize>)
    ensures
        r matches Some(k) ==> k < entries@.len() && entries@[k as int].0@ == symbol@ && forall|j: int|
            0 <= j < k ==> (#[trigger] entries@[j]).0@ != symbol@,
        r is None <==> forall|k: int| 0 <= k < entries@.len() ==> (#[trigger] entries@[k]).0@ != symbol@,
{
    let mut i: usize = 0;
    while i < entries.len()
        invariant
            i <= entries@.len(),
            forall|j: int| 0 <= j < i ==> (#[trigger] entries@[j]).0@ != symbol@,
        decreases entries@.len() - i,
    {
        if entries[i].0.get() == symbol.get() {
            return Some(i);
        }
        i = i + 1;
    }
    None
}

struct TypeSession<'a> {
    package: &'a HirPackage,
    sources: &'a [&'a SourceFile],
    diagnostics: Vec<Diagnostic>,
    types: Vec<TypeKind>,
    items: Vec<ItemType>,
    locals: Vec<LocalType>,
    expressions: Vec<ExprType>,
    substitutions: Vec<TypeSubstitution>,
    item_types: Vec<(SymbolId, TypeId)>,
    functions: Vec<(SymbolId, FunctionSig)>,
    traits: Vec<(SymbolId, TraitInfo)>,
    variants: Vec<(SymbolId, VariantInfo)>,
    enum_variants: Vec<(SymbolId, Vec<SymbolId>)>,
    generic_counts: Vec<(SymbolId, usize)>,
}

impl<'a> TypeSession<'a> {
    spec fn wf(&self) -> bool {
        let n = self.types@.len() as int;
        &&& types_ordered(self.types@)
        &&& types_distinct(self.types@)
        &&& forall|k: int|
            0 <= k < self.diagnostics@.len() ==> is_type_diagnostic(
                #[trigger] self.diagnostics@[k]@,
            )
        &&& forall|i: int| 0 <= i < self.items@.len() ==> (#[trigger] self.items@[i]).ty@ < n
        &&& forall|i: int| 0 <= i < self.locals@.len() ==> (#[trigger] self.locals@[i]).ty@ < n
        &&& forall|i: int|
            0 <= i < self.expressions@.len() ==> (#[trigger] self.expressions@[i]).ty@ < n
        &&& forall|i: int|
            0 <= i < self.substitutions@.len() ==> (#[trigger] self.substitutions@[i]).replacement@
                < n
        &&& forall|i: int|
            0 <= i < self.item_types@.len() ==> (#[trigger] self.item_types@[i]).1@ < n
        &&& forall|i: int|
            0 <= i < self.functions@.len() ==> sig_below((#[trigger] self.functions@[i]).1, n)
        &&& forall|i: int, j: int|
            0 <= i < self.traits@.len() && 0 <= j < self.traits@[i].1.methods@.len() ==> sig_below(
                #[trigger] self.traits@[i].1.methods@[j],
                n,
            )
        &&& forall|i: int|
            0 <= i < self.variants@.len() ==> ids_below((#[trigger] self.variants@[i]).1.fields@,
                n,
            )
    }

    spec fn extends(&self, before: &Self) -> bool {
        &&& self.package == before.package
        &&& self.sources == before.sources
        &&& self.types@.len() >= before.types@.len()
        &&& forall|i: int| 0 <= i < before.types@.len() ==> #[trigger] self.types@[i] == before.types@[i]
        &&& self.diagnostics@.len() >= before.diagnostics@.len()
        &&& forall|i: int| 0 <= i < before.diagnostics@.len() ==> #[trigger] self.diagnostics@[i] == before.diagnostics@[i]
        &&& self.expressions@.len() >= before.expressions@.len()
        &&& forall|i: int| 0 <= i < before.expressions@.len() ==> #[trigger] self.expressions@[i] == before.expressions@[i]
        &&& self.locals@.len() >= before.locals@.len()
        &&& forall|i: int| 0 <= i < before.locals@.len() ==> #[trigger] self.locals@[i] == before.locals@[i]
        &&& self.items@ == before.items@
    }

    fn new(package: &'a HirPackage, sources: &'a [&'a SourceFile]) -> (r: Self)
        ensures
            r.wf(),
            r.package == package,
            r.items@.len() == 0,
    {
        TypeSession {
            package,
            sources,
            diagnostics: Vec::new(),
            types: Vec::new(),
            items: Vec::new(),
            locals: Vec::new(),
            expressions: Vec::new(),
            substitutions: Vec::new(),
            item_types: Vec::new(),
            functions: Vec::new(),
            traits: Vec::new(),
            variants: Vec::new(),
            enum_variants: Vec::new(),
            generic_counts: Vec::new(),
        }
    }

    fn check(self) -> (r: (TypeTable, Vec<Diagnostic>))
        requires
            self.wf(),
            self.items@.len() == 0,
        ensures
            type_table_wf(r.0),
            item_type_keys(r.0.items@) == modules_item_keys(self.package.modules@),
            forall|k: int| 0 <= k < r.1@.len() ==> is_type_diagnostic(#[trigger] r.1@[k]@),
    {
        let mut session = self;
        session.collect_declarations();
        session.check_items();
        let table = TypeTable {
            types: session.types,
            items: session.items,
            locals: session.locals,
            expressions: session.expressions,
            substitutions: session.substitutions,
        };
        (table, session.diagnostics)
    }

    // -- interning -------------------------------------------------------------------------

    fn intern(&mut self, kind: TypeKind) -> (r: TypeId)
        requires
            old(self).wf(),
            kind_below(kind@, old(self).types@.len() as int),
        ensures
            final(self).wf(),
            final(self).extends(old(self)),
            final(self).expressions@ == old(self).expressions@,
            r@ < final(self).types@.len(),
            final(self).types@[r@ as int]@ == kind@,
            final(self).diagnostics@ == old(self).diagnostics@,
    {
        match find_kind(&self.types, &kind) {
            Some(i) => TypeId::new(i),
            None => {
                let id = TypeId::new(self.types.len());
                self.types.push(kind);
                id
            },
        }
    }

    fn intern_simple(&mut self, kind: TypeKind) -> (r: TypeId)
        requires
            old(self).wf(),
            !(kind is Nominal) && !(kind is Function),
        ensures
            final(self).wf(),
            final(self).extends(old(self)),
            final(self).expressions@ == old(self).expressions@,
            r@ < final(self).types@.len(),
            final(self).types@[r@ as int]@ == kind@,
            final(self).diagnostics@ == old(self).diagnostics@,
    {
        self.intern(kind)
    }

    fn error_type(&mut self) -> (r: TypeId)
        requires
            old(self).wf(),
        ensures
            final(self).wf(),
            final(self).extends(old(self)),
            final(self).expressions@ == old(self).expressions@,
            r@ < final(self).types@.len(),
            final(self).types@[r@ as int]@ == TypeKindView::Error,
            final(self).diagnostics@ == old(self).diagnostics@,
    {
        self.intern(TypeKind::Error)
    }

    fn unit_type(&mut self) -> (r: TypeId)
        requires
            old(self).wf(),
        ensures
            final(self).wf(),
            final(self).extends(old(self)),
            final(self).expressions@ == old(self).expressions@,
            r@ < final(self).types@.len(),
            final(self).types@[r@ as int]@ == TypeKindView::Unit,
            final(self).diagnostics@ == old(self).diagnostics@,
    {
        self.intern(TypeKind::Unit)
    }

    fn kind_of(&self, ty: TypeId) -> (r: TypeKind)
        requires
            self.wf(),
        ensures
            ty@ < self.types@.len() ==> r@ == self.types@[ty@ as int]@,
            ty@ >= self.types@.len() ==> r is Error,
            kind_below(r@, ty@ as int),
    {
        if ty.get() < self.types.len() {
            copy_kind(&self.types[ty.get()])
        } else {
            TypeKind::Error
        }
    }

    fn is_error(&self, ty: TypeId) -> (r: bool)
        ensures
            ty@ >= self.types@.len() ==> r,
            r == (ty@ >= self.types@.len() || self.types@[ty@ as int]@ == TypeKindView::Error),
    {
        if ty.get() < self.types.len() {
            match &self.types[ty.get()] {
                TypeKind::Error => true,
                _ => false,
            }
        } else {
            true
        }
    }

    fn display_type(&self, ty: TypeId) -> (r: String)
        ensures
            r@ == type_text(self.types@, ty@ as usize, self.types@.len() as nat),
    {
        type_string(&self.types, ty.get(), self.types.len())
    }

    // -- diagnostics -----------------------------------------------------------------------

    fn push(&mut self, source_id: SourceId, code: &str, span: TextRange, message: &str, note: &str)
        requires
            old(self).wf(),
            is_type_code(code@),
        ensures
            final(self).wf(),
            final(self).extends(old(self)),
            final(self).types@ == old(self).types@,
            final(self).expressions@ == old(self).expressions@,
            final(self).diagnostics@.drop_last() == old(self).diagnostics@,
            final(self).diagnostics@.len() == old(self).diagnostics@.len() + 1,
            final(self).diagnostics@.last()@ == (DiagnosticView {
                code: code@,
                severity: DiagnosticSeverity::Error,
                message: message@,
                span: span_in_sources(old(self).sources@, source_id, span, old(self).sources@.len() as int),
                notes: seq![note@],
            }),
    {
        proof {
            lemma_type_codes_valid(code@);
        }
        let code = DiagnosticCode::new(code).unwrap();
        let diagnostic = Diagnostic::new(code, DiagnosticSeverity::Error, message);
        let diagnostic = diagnostic.with_note(note);
        let mut found: Option<usize> = None;
        let mut i: usize = self.sources.len();
        while i > 0
            invariant_except_break
                i <= self.sources@.len(),
                found is None,
                span_in_sources(self.sources@, source_id, span, self.sources@.len() as int)
                    == span_in_sources(self.sources@, source_id, span, i as int),
            ensures
                found matches Some(k) ==> k < self.sources@.len() && span_in_sources(
                    self.sources@,
                    source_id,
                    span,
                    self.sources@.len() as int,
                ) == resolved_span(*self.sources@[k as int], span),
                found is None ==> span_in_sources(self.sources@, source_id, span, self.sources@.len() as int)
                    is None,
            decreases i,
        {
            i = i - 1;
            if self.sources[i].id().get() == source_id.get() {
                found = Some(i);
                break;
            }
        }
        let diagnostic = match found {
            Some(k) => match DiagnosticSpan::from_source(self.sources[k], span) {
                Some(resolved_span) => diagnostic.with_span(resolved_span),
                None => diagnostic,
            },
            None => diagnostic,
        };
        proof {
            assert(diagnostic@.notes.len() == 1);
            assert(diagnostic@.notes =~= seq![note@]);
        }
        self.diagnostics.push(diagnostic);
        proof {
            assert(self.diagnostics@.drop_last() =~= old(self).diagnostics@);
        }
    }

    fn push_mismatch(&mut self, source_id: SourceId, expected: TypeId, actual: TypeId, span: TextRange)
        requires
            old(self).wf(),
        ensures
            final(self).wf(),
            final(self).extends(old(self)),
            final(self).expressions@ == old(self).expressions@,
            final(self).types@ == old(self).types@,
            final(self).diagnostics@.drop_last() == old(self).diagnostics@,
            final(self).diagnostics@.len() == old(self).diagnostics@.len() + 1,
            final(self).diagnostics@.last()@ == (DiagnosticView {
                code: MD_TYPE_MISMATCH@,
                severity: DiagnosticSeverity::Error,
                message: "类型不匹配：期望 `"@ + type_text(old(self).types@, expected@ as usize, old(self).types@.len() as nat)
                    + "`，实际是 `"@ + type_text(old(self).types@, actual@ as usize, old(self).types@.len() as nat) + "`"@,
                span: span_in_sources(old(self).sources@, source_id, span, old(self).sources@.len() as int),
                notes: seq!["请调整表达式类型或显式类型标注"@],
            }),
    {
        let expected_text = self.display_type(expected);
        let actual_text = self.display_type(actual);
        let mut message = owned("类型不匹配：期望 `");
        message.append(expected_text.as_str());
        message.append("`，实际是 `");
        message.append(actual_text.as_str());
        message.append("`");
        self.push(source_id, MD_TYPE_MISMATCH, span, message.as_str(), "请调整表达式类型或显式类型标注");
    }

    // -- declarations ----------------------------------------------------------------------

    fn record_item_type(&mut self, item: &HirItem, ty: TypeId)
        requires
            old(self).wf(),
            ty@ < old(self).types@.len(),
        ensures
            final(self).wf(),
            final(self).package == old(self).package,
            final(self).sources == old(self).sources,
            final(self).types@.len() == old(self).types@.len(),
            final(self).items@ == old(self).items@.push(
                ItemType { item: item.id, symbol: item.symbol, ty },
            ),
    {
        self.item_types.push((item.symbol, ty));
        self.items.push(ItemType { item: item.id, symbol: item.symbol, ty });
    }

    fn set_generic_count(&mut self, symbol: SymbolId, count: usize)
        requires
            old(self).wf(),
        ensures
            final(self).wf(),
            final(self).extends(old(self)),
            final(self).types@.len() == old(self).types@.len(),
            upserted(old(self).generic_counts@, symbol, count, final(self).generic_counts@),
            final(self).diagnostics@ == old(self).diagnostics@,
    {
        match find_symbol(&self.generic_counts, symbol) {
            Some(i) => {
                self.generic_counts.set(i, (symbol, count));
            },
            None => {
                self.generic_counts.push((symbol, count));
            },
        }
    }

    fn generic_count(&self, symbol: SymbolId) -> (r: usize) {
        match find_symbol(&self.generic_counts, symbol) {
            Some(i) => self.generic_counts[i].1,
            None => 0,
        }
    }

    /// Interns `symbol<G1, .., Gn>` over the named generic parameters, rigid or flexible.
    fn nominal_over(&mut self, symbol: SymbolId, generics: &Vec<String>, flexible: bool) -> (r: TypeId)
        requires
            old(self).wf(),
        ensures
            final(self).wf(),
            final(self).extends(old(self)),
            r@ < final(self).types@.len(),
    {
        let mut args: Vec<TypeId> = Vec::new();
        let mut i: usize = 0;
        while i < generics.len()
            invariant
                self.wf(),
                self.extends(old(self)),
                i <= generics@.len(),
                ids_below(args@, self.types@.len() as int),
            decreases generics@.len() - i,
        {
            let name = generics[i].clone();
            let t = if flexible {
                self.intern_simple(TypeKind::Infer(name))
            } else {
                self.intern_simple(TypeKind::Generic(name))
            };
            args.push(t);
            i = i + 1;
        }
        proof {
            lemma_ids_below(args@, self.types@.len() as int);
        }
        self.intern(TypeKind::Nominal { symbol, args })
    }

    fn collect_declarations(&mut self)
        requires
            old(self).wf(),
            old(self).items@.len() == 0,
        ensures
            final(self).wf(),
            final(self).package == old(self).package,
            final(self).sources == old(self).sources,
            item_type_keys(final(self).items@) == modules_item_keys(old(self).package.modules@),
    {
        let package = self.package;
        let mut m: usize = 0;
        proof {
            assert(item_type_keys(self.items@) =~= modules_item_keys(package.modules@.take(0)));
        }
        while m < package.modules.len()
            invariant
                self.wf(),
                self.package == package,
                self.sources == old(self).sources,
                m <= package.modules@.len(),
                item_type_keys(self.items@) == modules_item_keys(package.modules@.take(m as int)),
            decreases package.modules@.len() - m,
        {
            let module = &package.modules[m];
            let ghost start = item_type_keys(self.items@);
            let mut i: usize = 0;
            proof {
                assert(item_keys(module.items@.take(0)) =~= Seq::<(usize, usize)>::empty());
                assert(start + item_keys(module.items@.take(0)) =~= start);
            }
            while i < module.items.len()
                invariant
                    self.wf(),
                    self.package == package,
                    self.sources == old(self).sources,
                    m < package.modules@.len(),
                    *module == package.modules@[m as int],
                    i <= module.items@.len(),
                    item_type_keys(self.items@) == start + item_keys(module.items@.take(i as int)),
                decreases module.items@.len() - i,
            {
                let item = &module.items[i];
                let ghost before = self.items@;
                match &item.kind {
                    HirItemKind::Function(function) => {
                        let empty: Vec<String> = Vec::new();
                        let sig = self.function_sig(module.source_id, function, &empty);
                        let ty = self.function_type(&sig);
                        self.record_item_type(item, ty);
                        self.insert_function(item.symbol, sig);
                    },
                    HirItemKind::Struct(struct_) => {
                        self.set_generic_count(item.symbol, struct_.generics.len());
                        let ty = self.nominal_over(item.symbol, &struct_.generics, false);
                        self.record_item_type(item, ty);
                        let mut f: usize = 0;
                        while f < struct_.fields.len()
                            invariant
                                self.wf(),
                                self.package == package,
                                self.sources == old(self).sources,
                                self.items@ == before.push(
                                    ItemType { item: item.id, symbol: item.symbol, ty },
                                ),
                            decreases struct_.fields@.len() - f,
                        {
                            if let Some(field_ty) = &struct_.fields[f].ty {
                                let scope = generic_scope(&struct_.generics, &Vec::new());
                                self.resolve_type_ref(module.source_id, field_ty, &scope);
                            }
                            f = f + 1;
                        }
                    },
                    HirItemKind::Enum(enum_) => {
                        self.set_generic_count(item.symbol, enum_.generics.len());
                        let ty = self.nominal_over(item.symbol, &enum_.generics, false);
                        self.record_item_type(item, ty);
                        let scope = generic_scope(&enum_.generics, &Vec::new());
                        let mut v: usize = 0;
                        while v < enum_.variants.len()
                            invariant
                                self.wf(),
                                self.package == package,
                                self.sources == old(self).sources,
                                self.items@ == before.push(
                                    ItemType { item: item.id, symbol: item.symbol, ty },
                                ),
                            decreases enum_.variants@.len() - v,
                        {
                            let variant = &enum_.variants[v];
                            let mut fields: Vec<TypeId> = Vec::new();
                            let mut k: usize = 0;
                            while k < variant.fields.len()
                                invariant
                                    self.wf(),
                                    self.package == package,
                                    self.sources == old(self).sources,
                                    self.items@ == before.push(
                                        ItemType { item: item.id, symbol: item.symbol, ty },
                                    ),
                                    ids_below(fields@, self.types@.len() as int),
                                decreases variant.fields@.len() - k,
                            {
                                let t = self.resolve_type_ref(module.source_id, &variant.fields[k], &scope);
                                fields.push(t);
                                k = k + 1;
                            }
                            self.insert_variant(
                                variant.symbol,
                                VariantInfo {
                                    enum_symbol: item.symbol,
                                    enum_generics: copy_strings(&enum_.generics),
                                    name: variant.name.clone(),
                                    fields,
                                },
                            );
                            self.push_enum_variant(item.symbol, variant.symbol);
                            v = v + 1;
                        }
                    },
                    HirItemKind::Trait(trait_) => {
                        self.set_generic_count(item.symbol, trait_.generics.len());
                        let ty = self.nominal_over(item.symbol, &trait_.generics, false);
                        self.record_item_type(item, ty);
                        let mut methods: Vec<FunctionSig> = Vec::new();
                        let mut k: usize = 0;
                        while k < trait_.functions.len()
                            invariant
                                self.wf(),
                                self.package == package,
                                self.sources == old(self).sources,
                                self.items@ == before.push(
                                    ItemType { item: item.id, symbol: item.symbol, ty },
                                ),
                                forall|j: int| 0 <= j < methods@.len() ==> sig_below(
                                    #[trigger] methods@[j],
                                    self.types@.len() as int,
                                ),
                            decreases trait_.functions@.len() - k,
                        {
                            let sig = self.function_sig(module.source_id, &trait_.functions[k], &trait_.generics);
                            methods.push(sig);
                            k = k + 1;
                        }
                        self.insert_trait(
                            item.symbol,
                            TraitInfo {
                                name: trait_.name.clone(),
                                generics: copy_strings(&trait_.generics),
                                methods,
                            },
                        );
                    },
                    HirItemKind::Impl(_) => {
                        let ty = self.unit_type();
                        self.record_item_type(item, ty);
                    },
                }
                proof {
                    assert(module.items@.take(i + 1) =~= module.items@.take(i as int).push(
                        module.items@[i as int],
                    ));
                    assert(item_keys(module.items@.take(i + 1)) =~= item_keys(
                        module.items@.take(i as int),
                    ).push((item.id@, item.symbol@)));
                    assert(item_type_keys(self.items@) =~= item_type_keys(before).push(
                        (item.id@, item.symbol@),
                    ));
                }
                i = i + 1;
            }
            proof {
                assert(module.items@.take(module.items@.len() as int) =~= module.items@);
                assert(package.modules@.take(m + 1).drop_last() =~= package.modules@.take(
                    m as int,
                ));
            }
            m = m + 1;
        }
        proof {
            assert(package.modules@.take(package.modules@.len() as int) =~= package.modules@);
        }
    }

    fn insert_function(&mut self, symbol: SymbolId, sig: FunctionSig)
        requires
            old(self).wf(),
            sig_below(sig, old(self).types@.len() as int),
        ensures
            final(self).wf(),
            final(self).extends(old(self)),
            upserted(old(self).functions@, symbol, sig, final(self).functions@),
            final(self).diagnostics@ == old(self).diagnostics@,
            final(self).types@ == old(self).types@,
    {
        match find_symbol(&self.functions, symbol) {
            Some(i) => {
                self.functions.set(i, (symbol, sig));
            },
            None => {
                self.functions.push((symbol, sig));
            },
        }
    }

    fn insert_trait(&mut self, symbol: SymbolId, info: TraitInfo)
        requires
            old(self).wf(),
            forall|j: int| 0 <= j < info.methods@.len() ==> sig_below(
                #[trigger] info.methods@[j],
                old(self).types@.len() as int,
            ),
        ensures
            final(self).wf(),
            final(self).extends(old(self)),
            upserted(old(self).traits@, symbol, info, final(self).traits@),
            final(self).diagnostics@ == old(self).diagnostics@,
            final(self).types@ == old(self).types@,
    {
        match find_symbol(&self.traits, symbol) {
            Some(i) => {
                self.traits.set(i, (symbol, info));
            },
            None => {
                self.traits.push((symbol, info));
            },
        }
    }

    fn insert_variant(&mut self, symbol: SymbolId, info: VariantInfo)
        requires
            old(self).wf(),
            ids_below(info.fields@, old(self).types@.len() as int),
        ensures
            final(self).wf(),
            final(self).extends(old(self)),
            upserted(old(self).variants@, symbol, info, final(self).variants@),
            final(self).diagnostics@ == old(self).diagnostics@,
            final(self).types@ == old(self).types@,
    {
        match find_symbol(&self.variants, symbol) {
            Some(i) => {
                self.variants.set(i, (symbol, info));
            },
            None => {
                self.variants.push((symbol, info));
            },
        }
    }

    fn push_enum_variant(&mut self, enum_symbol: SymbolId, variant: SymbolId)
        requires
            old(self).wf(),
        ensures
            final(self).wf(),
            final(self).extends(old(self)),
            final(self).diagnostics@ == old(self).diagnostics@,
            (exists|i: int|
                0 <= i < old(self).enum_variants@.len() && (#[trigger] old(self).enum_variants@[i]).0@
                    == enum_symbol@ && (forall|j: int| 0 <= j < i ==> old(self).enum_variants@[j].0@ != enum_symbol@)
                    && final(self).enum_variants@.len() == old(self).enum_variants@.len()
                    && final(self).enum_variants@[i].0 == enum_symbol
                    && final(self).enum_variants@[i].1@ == old(self).enum_variants@[i].1@.push(variant)
                    && forall|k: int| 0 <= k < old(self).enum_variants@.len() && k != i ==> final(self).enum_variants@[k] == old(self).enum_variants@[k])
            || ((forall|k: int| 0 <= k < old(self).enum_variants@.len() ==> (#[trigger] old(self).enum_variants@[k]).0@ != enum_symbol@)
                && final(self).enum_variants@.drop_last() == old(self).enum_variants@
                && final(self).enum_variants@.len() == old(self).enum_variants@.len() + 1
                && final(self).enum_variants@.last().0 == enum_symbol
                && final(self).enum_variants@.last().1@ == seq![variant]),
    {
        match find_symbol(&self.enum_variants, enum_symbol) {
            Some(i) => {
                let mut list = copy_symbols(&self.enum_variants[i].1);
                list.push(variant);
                self.enum_variants.set(i, (enum_symbol, list));
            },
            None => {
                let mut list: Vec<SymbolId> = Vec::new();
                list.push(variant);
                self.enum_variants.push((enum_symbol, list));
            },
        }
    }

    fn function_index(&self, symbol: SymbolId) -> (r: Option<usize>)
        ensures
            r matches Some(k) ==> k < self.functions@.len(),
    {
        find_symbol(&self.functions, symbol)
    }

    fn trait_index(&self, symbol: SymbolId) -> (r: Option<usize>)
        ensures
            r matches Some(k) ==> k < self.traits@.len(),
    {
        find_symbol(&self.traits, symbol)
    }

    /// `symbol` is a registered enum variant.
    spec fn is_variant_symbol(&self, symbol: SymbolId) -> bool {
        exists|k: int| 0 <= k < self.variants@.len() && (#[trigger] self.variants@[k]).0@ == symbol@
    }

    /// What a path pattern covers: the variant it names, or nothing in particular when the path
    /// names no variant.
    spec fn variant_coverage(&self, resolved: Option<ResolvedPath>) -> PatternCoverage {
        match resolved {
            Some(ResolvedPath::Symbol(symbol)) => if self.is_variant_symbol(symbol) {
                PatternCoverage::Variant(symbol)
            } else {
                PatternCoverage::Partial
            },
            _ => PatternCoverage::Partial,
        }
    }

    fn variant_index(&self, symbol: SymbolId) -> (r: Option<usize>)
        ensures
            r matches Some(k) ==> k < self.variants@.len() && self.variants@[k as int].0@ == symbol@,
            r is None <==> !self.is_variant_symbol(symbol),
    {
        find_symbol(&self.variants, symbol)
    }

    fn item_type_of(&self, symbol: SymbolId) -> (r: Option<TypeId>)
        requires
            self.wf(),
        ensures
            r matches Some(t) ==> t@ < self.types@.len(),
    {
        match find_symbol(&self.item_types, symbol) {
            Some(i) => Some(self.item_types[i].1),
            None => None,
        }
    }

    fn function_sig(&mut self, source_id: SourceId, function: &HirFunction, outer_generics: &Vec<String>) -> (r: FunctionSig)
        requires
            old(self).wf(),
        ensures
            final(self).wf(),
            final(self).extends(old(self)),
            sig_below(r, final(self).types@.len() as int),
    {
        let generics = generic_scope(outer_generics, &function.generics);
        let mut params: Vec<TypeId> = Vec::new();
        let mut i: usize = 0;
        while i < function.params.len()
            invariant
                self.wf(),
                self.extends(old(self)),
                ids_below(params@, self.types@.len() as int),
            decreases function.params@.len() - i,
        {
            let t = match &function.params[i].ty {
                Some(ty) => self.resolve_type_ref(source_id, ty, &generics),
                None => self.error_type(),
            };
            params.push(t);
            i = i + 1;
        }
        let return_type = match &function.return_type {
            Some(ty) => self.resolve_type_ref(source_id, ty, &generics),
            None => self.unit_type(),
        };
        FunctionSig {
            name: function.name.clone(),
            generics: copy_strings(&function.generics),
            params,
            return_type,
            span: function.span,
        }
    }

    fn function_type(&mut self, sig: &FunctionSig) -> (r: TypeId)
        requires
            old(self).wf(),
            sig_below(*sig, old(self).types@.len() as int),
        ensures
            final(self).wf(),
            final(self).extends(old(self)),
            r@ < final(self).types@.len(),
            final(self).types@[r@ as int]@ == (TypeKindView::Function {
                generics: string_views(sig.generics@),
                params: type_ids(sig.params@),
                return_type: sig.return_type@,
            }),
    {
        let params = copy_ids(&sig.params);
        proof {
            lemma_ids_below(params@, self.types@.len() as int);
        }
        self.intern(
            TypeKind::Function {
                generics: copy_strings(&sig.generics),
                params,
                return_type: sig.return_type,
            },
        )
    }

    fn builtin_type(&mut self, builtin: BuiltinType) -> (r: TypeId)
        requires
            old(self).wf(),
        ensures
            final(self).wf(),
            final(self).extends(old(self)),
            r@ < final(self).types@.len(),
            final(self).types@[r@ as int]@ == builtin_kind(builtin),
            final(self).diagnostics@ == old(self).diagnostics@,
    {
        match builtin {
            BuiltinType::Int | BuiltinType::I32 => self.intern_simple(TypeKind::I32),
            BuiltinType::Bool | BuiltinType::BoolLower => self.intern_simple(TypeKind::Bool),
            BuiltinType::String => self.intern_simple(TypeKind::String),
            BuiltinType::Unit => self.intern_simple(TypeKind::Unit),
        }
    }

    fn resolve_type_ref(&mut self, source_id: SourceId, ty: &HirTypeRef, generics: &Vec<String>) -> (r: TypeId)
        requires
            old(self).wf(),
        ensures
            final(self).wf(),
            final(self).extends(old(self)),
            r@ < final(self).types@.len(),
        decreases ty,
    {
        match &ty.resolved {
            Some(ResolvedPath::Builtin(builtin)) => {
                if ty.generic_args.len() > 0 {
                    let mut message = owned("内建类型 `");
                    message.append(builtin.as_str());
                    message.append("` 不接受泛型实参");
                    self.push(source_id, MD_INVALID_TYPE_ARITY, ty.span, message.as_str(), "请移除该类型后的泛型实参");
                }
                self.builtin_type(*builtin)
            },
            Some(ResolvedPath::Generic(name)) => {
                if contains_string(generics, name.as_str()) {
                    self.intern_simple(TypeKind::Generic(name.clone()))
                } else {
                    self.error_type()
                }
            },
            Some(ResolvedPath::Symbol(symbol)) => {
                let mut args: Vec<TypeId> = Vec::new();
                let mut i: usize = 0;
                while i < ty.generic_args.len()
                    invariant
                        self.wf(),
                        self.extends(old(self)),
                        ids_below(args@, self.types@.len() as int),
                    decreases ty.generic_args@.len() - i,
                {
                    proof {
                        assert(decreases_to!(*ty => ty.generic_args));
                        assert(decreases_to!(ty.generic_args => ty.generic_args@));
                        assert(decreases_to!(ty.generic_args@ => ty.generic_args@[i as int]));
                    }
                    let t = self.resolve_type_ref(source_id, &ty.generic_args[i], generics);
                    args.push(t);
                    i = i + 1;
                }
                let expected = self.generic_count(*symbol);
                if expected != args.len() {
                    let mut message = owned("类型 `");
                    let shown = ty.display();
                    message.append(shown.as_str());
                    message.append("` 需要 ");
                    push_decimal(&mut message, expected);
                    message.append(" 个泛型实参，但提供了 ");
                    push_decimal(&mut message, args.len());
                    message.append(" 个");
                    self.push(source_id, MD_INVALID_TYPE_ARITY, ty.span, message.as_str(), "请调整泛型实参数量");
                }
                proof {
                    lemma_ids_below(args@, self.types@.len() as int);
                }
                self.intern(TypeKind::Nominal { symbol: *symbol, args })
            },
            _ => self.error_type(),
        }
    }
}

fn copy_symbols(v: &Vec<SymbolId>) -> (r: Vec<SymbolId>)
    ensures
        r@ == v@,
{
    let mut out: Vec<SymbolId> = Vec::new();
    let mut i: usize = 0;
    while i < v.len()
        invariant
            i <= v@.len(),
            out@ == v@.take(i as int),
        decreases v@.len() - i,
    {
        out.push(v[i]);
        proof {
            assert(v@.take(i + 1) =~= v@.take(i as int).push(v@[i as int]));
        }
        i = i + 1;
    }
    proof {
        assert(v@.take(v@.len() as int) =~= v@);
    }
    out
}

impl<'a> TypeSession<'a> {
    /// A type mismatch was reported, among the diagnostics added after `before`, at `span` of
    /// source `source_id`.
    spec fn mismatch_reported_at(&self, before: Seq<Diagnostic>, source_id: SourceId, span: TextRange) -> bool {
        exists|d: int|
            before.len() <= d < self.diagnostics@.len() && (#[trigger] self.diagnostics@[d])@.code
                == MD_TYPE_MISMATCH@ && self.diagnostics@[d]@.span == span_in_sources(
                self.sources@,
                source_id,
                span,
                self.sources@.len() as int,
            )
    }

    /// An operand of type `t`, a concrete type other than `i32` that can never become one, was
    /// reported as a type mismatch at its span.
    spec fn i32_operand_checked(&self, before: Seq<Diagnostic>, source_id: SourceId, t: TypeId, span: TextRange) -> bool {
        t@ < self.types@.len() && self.types@[t@ as int]@ != TypeKindView::Error && self.types@[t@ as int]@
            != TypeKindView::I32 && unify_clash(TypeKindView::I32, self.types@[t@ as int]@)
            ==> self.mismatch_reported_at(before, source_id, span)
    }

    /// Both operands of an arithmetic or comparison operator were checked as `i32`: the type
    /// recorded for each (the right operand's last of all) is reported where it can never be one.
    spec fn i32_operands_checked(&self, before: &Self, owner: Seq<char>, source_id: SourceId, left: HirExpr, right: HirExpr) -> bool {
        let e = self.expressions@;
        &&& e.len() > before.expressions@.len()
        &&& e.last().span == hir_expr_span(right)
        &&& e.last().owner@ == owner
        &&& self.i32_operand_checked(before.diagnostics@, source_id, e.last().ty, hir_expr_span(right))
        &&& exists|k: int|
            before.expressions@.len() <= k < e.len() - 1 && (#[trigger] e[k]).span == hir_expr_span(left)
                && e[k].owner@ == owner && self.i32_operand_checked(
                before.diagnostics@,
                source_id,
                e[k].ty,
                hir_expr_span(left),
            )
    }

    spec fn body_step(&self, before: &Self, c: BodyContext, c0: BodyContext) -> bool {
        &&& self.wf()
        &&& self.extends(before)
        &&& context_below(c, self.types@.len() as int)
        &&& c.source_id == c0.source_id
        &&& c.owner@ == c0.owner@
        &&& c.return_type == c0.return_type
    }

    fn check_items(&mut self)
        requires
            old(self).wf(),
        ensures
            final(self).wf(),
            final(self).extends(old(self)),
    {
        let package = self.package;
        let mut m: usize = 0;
        while m < package.modules.len()
            invariant
                self.wf(),
                self.extends(old(self)),
                self.package == package,
            decreases package.modules@.len() - m,
        {
            let module = &package.modules[m];
            let mut i: usize = 0;
            while i < module.items.len()
                invariant
                    self.wf(),
                    self.extends(old(self)),
                    self.package == package,
                decreases module.items@.len() - i,
            {
                let item = &module.items[i];
                match &item.kind {
                    HirItemKind::Function(function) => {
                        if let Some(k) = self.function_index(item.symbol) {
                            let sig = copy_sig(&self.functions[k].1);
                            self.check_function(module.source_id, function, &sig);
                        }
                    },
                    HirItemKind::Impl(impl_) => self.check_impl(module.source_id, impl_),
                    _ => {},
                }
                i = i + 1;
            }
            m = m + 1;
        }
    }

    fn check_impl(&mut self, source_id: SourceId, impl_: &HirImpl)
        requires
            old(self).wf(),
        ensures
            final(self).wf(),
            final(self).extends(old(self)),
    {
        let empty: Vec<String> = Vec::new();
        let _target_ty = match &impl_.target {
            Some(ty) => self.resolve_type_ref(source_id, ty, &empty),
            None => self.error_type(),
        };
        if let Some(trait_path) = &impl_.trait_path {
            let trait_ty = self.resolve_type_ref(source_id, trait_path, &empty);
            let trait_kind = self.kind_of(trait_ty);
            let found = match trait_kind {
                TypeKind::Nominal { symbol, .. } => self.trait_index(symbol),
                _ => None,
            };
            match found {
                None => {
                    self.push(
                        source_id,
                        MD_INVALID_IMPL,
                        trait_path.span,
                        "impl 的 trait 路径必须指向 trait 类型",
                        "请确认 `impl Trait for Type` 中的 Trait 是 trait 声明",
                    );
                    return;
                },
                Some(k) => {
                    self.check_trait_impl(source_id, impl_, k);
                },
            }
        }
        let mut i: usize = 0;
        while i < impl_.methods.len()
            invariant
                self.wf(),
                self.extends(old(self)),
            decreases impl_.methods@.len() - i,
        {
            let method = &impl_.methods[i];
            let sig = self.function_sig(source_id, method, &empty);
            self.check_function(source_id, method, &sig);
            i = i + 1;
        }
    }

    fn check_trait_impl(&mut self, source_id: SourceId, impl_: &HirImpl, trait_index: usize)
        requires
            old(self).wf(),
            trait_index < old(self).traits@.len(),
        ensures
            final(self).wf(),
            final(self).extends(old(self)),
            forall|j: int|
                0 <= j < old(self).traits@[trait_index as int].1.methods@.len() && !has_method_named(
                    impl_.methods@,
                    (#[trigger] old(self).traits@[trait_index as int].1.methods@[j]).name@,
                ) ==> reported_since(
                    old(self).diagnostics@,
                    final(self).diagnostics@,
                    MD_MISSING_TRAIT_METHOD@,
                    missing_method_message(
                        old(self).traits@[trait_index as int].1.name@,
                        old(self).traits@[trait_index as int].1.methods@[j].name@,
                    ),
                ),
    {
        let trait_name = self.traits[trait_index].1.name.clone();
        let trait_generics = copy_strings(&self.traits[trait_index].1.generics);
        let mut required: Vec<FunctionSig> = Vec::new();
        let mut j: usize = 0;
        while j < self.traits[trait_index].1.methods.len()
            invariant
                self.wf(),
                trait_index < self.traits@.len(),
                forall|k: int| 0 <= k < required@.len() ==> sig_below(
                    #[trigger] required@[k],
                    self.types@.len() as int,
                ),
                *self == *old(self),
                j <= self.traits@[trait_index as int].1.methods@.len(),
                required@.len() == j,
                forall|k: int|
                    0 <= k < j ==> (#[trigger] required@[k]).name@ == old(self).traits@[trait_index as int].1.methods@[k].name@,
            decreases self.traits@[trait_index as int].1.methods@.len() - j,
        {
            required.push(copy_sig(&self.traits[trait_index].1.methods[j]));
            j = j + 1;
        }
        let ghost methods = old(self).traits@[trait_index as int].1.methods@;
        let ghost tn = old(self).traits@[trait_index as int].1.name@;
        let mut r: usize = 0;
        while r < required.len()
            invariant
                self.wf(),
                self.extends(old(self)),
                forall|k: int| 0 <= k < required@.len() ==> sig_below(
                    #[trigger] required@[k],
                    self.types@.len() as int,
                ),
                trait_name@ == old(self).traits@[trait_index as int].1.name@,
                tn == old(self).traits@[trait_index as int].1.name@,
                methods == old(self).traits@[trait_index as int].1.methods@,
                required@.len() == methods.len(),
                forall|k: int| 0 <= k < required@.len() ==> (#[trigger] required@[k]).name@ == methods[k].name@,
                r <= required@.len(),
                forall|j: int|
                    0 <= j < r && !has_method_named(impl_.methods@, (#[trigger] methods[j]).name@) ==> reported_since(
                        old(self).diagnostics@,
                        self.diagnostics@,
                        MD_MISSING_TRAIT_METHOD@,
                        missing_method_message(tn, methods[j].name@),
                    ),
            decreases required@.len() - r,
        {
            let req = &required[r];
            let ghost mid = self.diagnostics@;
            let mut found: Option<usize> = None;
            let mut m: usize = 0;
            while m < impl_.methods.len()
                invariant
                    m <= impl_.methods@.len(),
                    found matches Some(k) ==> k < impl_.methods@.len() && impl_.methods@[k as int].name@ == req.name@,
                    found is None ==> forall|k: int| 0 <= k < m ==> (#[trigger] impl_.methods@[k]).name@ != req.name@,
                decreases impl_.methods@.len() - m,
            {
                if str_eq(impl_.methods[m].name.as_str(), req.name.as_str()) {
                    found = Some(m);
                }
                m = m + 1;
            }
            match found {
                None => {
                    let span = match &impl_.target {
                        Some(ty) => ty.span,
                        None => match &impl_.trait_path {
                            Some(ty) => ty.span,
                            None => TextRange::at(0),
                        },
                    };
                    let mut message = owned("impl 缺少 trait `");
                    message.append(trait_name.as_str());
                    message.append("` 要求的方法 `");
                    message.append(req.name.as_str());
                    message.append("`");
                    proof {
                        assert(message@ =~= missing_method_message(tn, req.name@));
                    }
                    let ghost before = self.diagnostics@;
                    self.push(
                        source_id,
                        MD_MISSING_TRAIT_METHOD,
                        span,
                        message.as_str(),
                        "请在 impl 块中补齐 trait 签名要求的所有方法",
                    );
                    proof {
                        let d = before.len() as int;
                        assert(self.diagnostics@[d] == self.diagnostics@.last());
                        assert(reported_since(
                            old(self).diagnostics@,
                            self.diagnostics@,
                            MD_MISSING_TRAIT_METHOD@,
                            missing_method_message(tn, methods[r as int].name@),
                        ));
                    }
                },
                Some(k) => {
                    let actual = self.function_sig(source_id, &impl_.methods[k], &trait_generics);
                    self.compare_method_sig(source_id, &actual, req);
                },
            }
            proof {
                assert forall|j: int|
                    0 <= j < r + 1 && !has_method_named(impl_.methods@, (#[trigger] methods[j]).name@) implies reported_since(
                        old(self).diagnostics@,
                        self.diagnostics@,
                        MD_MISSING_TRAIT_METHOD@,
                        missing_method_message(tn, methods[j].name@),
                    ) by {
                    if j < r {
                        lemma_reported_persists(
                            old(self).diagnostics@,
                            mid,
                            self.diagnostics@,
                            MD_MISSING_TRAIT_METHOD@,
                            missing_method_message(tn, methods[j].name@),
                        );
                    }
                }
            }
            r = r + 1;
        }
    }

    fn compare_method_sig(&mut self, source_id: SourceId, actual: &FunctionSig, required: &FunctionSig)
        requires
            old(self).wf(),
            sig_below(*actual, old(self).types@.len() as int),
            sig_below(*required, old(self).types@.len() as int),
        ensures
            final(self).wf(),
            final(self).extends(old(self)),
            actual.params@.len() != required.params@.len() ==> final(self).diagnostics@.drop_last()
                == old(self).diagnostics@ && final(self).diagnostics@.len() == old(self).diagnostics@.len() + 1
                && final(self).diagnostics@.last()@.code == MD_TYPE_MISMATCH@
                && final(self).diagnostics@.last()@.message == "方法 `"@ + actual.name@ + "` 的参数数量与 trait 签名不一致"@,
    {
        if actual.params.len() != required.params.len() {
            let mut message = owned("方法 `");
            message.append(actual.name.as_str());
            message.append("` 的参数数量与 trait 签名不一致");
            self.push(
                source_id,
                MD_TYPE_MISMATCH,
                actual.span,
                message.as_str(),
                "impl 方法必须与 trait 方法签名保持一致",
            );
            return;
        }
        let mut i: usize = 0;
        while i < actual.params.len()
            invariant
                self.wf(),
                self.extends(old(self)),
                actual.params@.len() == required.params@.len(),
            decreases actual.params@.len() - i,
        {
            self.expect_exact(source_id, required.params[i], actual.params[i], actual.span);
            i = i + 1;
        }
        self.expect_exact(source_id, required.return_type, actual.return_type, actual.span);
    }

    fn check_function(&mut self, source_id: SourceId, function: &HirFunction, sig: &FunctionSig)
        requires
            old(self).wf(),
            sig_below(*sig, old(self).types@.len() as int),
        ensures
            final(self).wf(),
            final(self).extends(old(self)),
            ({
                let n = if function.params@.len() <= sig.params@.len() {
                    function.params@.len()
                } else {
                    sig.params@.len()
                };
                &&& final(self).locals@.len() >= old(self).locals@.len() + n
                &&& forall|i: int|
                    0 <= i < n ==> (#[trigger] final(self).locals@[old(self).locals@.len() + i]).local
                        == function.params@[i].local && final(self).locals@[old(self).locals@.len() + i].ty
                        == sig.params@[i] && final(self).locals@[old(self).locals@.len() + i].owner@
                        == function.name@ && final(self).locals@[old(self).locals@.len() + i].name@
                        == function.params@[i].name@ && !final(self).locals@[old(self).locals@.len()
                        + i].mutable
                &&& function.body is None ==> final(self).locals@.len() == old(self).locals@.len() + n
                    && final(self).diagnostics@ == old(self).diagnostics@
            }),
    {
        let mut context = BodyContext {
            source_id,
            owner: function.name.clone(),
            return_type: sig.return_type,
            bindings: Vec::new(),
        };
        let mut i: usize = 0;
        while i < function.params.len() && i < sig.params.len()
            invariant
                self.wf(),
                self.extends(old(self)),
                sig_below(*sig, self.types@.len() as int),
                context_below(context, self.types@.len() as int),
                i <= function.params@.len(),
                i <= sig.params@.len(),
                self.locals@.len() == old(self).locals@.len() + i,
                self.diagnostics@ == old(self).diagnostics@,
                context.owner@ == function.name@,
                forall|j: int|
                    0 <= j < i ==> (#[trigger] self.locals@[old(self).locals@.len() + j]).local
                        == function.params@[j].local && self.locals@[old(self).locals@.len() + j].ty == sig.params@[j]
                        && self.locals@[old(self).locals@.len() + j].owner@ == function.name@
                        && self.locals@[old(self).locals@.len() + j].name@ == function.params@[j].name@
                        && !self.locals@[old(self).locals@.len() + j].mutable,
            decreases function.params@.len() - i,
        {
            let param = &function.params[i];
            let ty = sig.params[i];
            proof {
                assert(type_ids(sig.params@)[i as int] == ty@);
            }
            bind_local(&mut context, param.local, param.name.clone(), false, ty);
            self.locals.push(
                LocalType {
                    owner: function.name.clone(),
                    local: param.local,
                    name: param.name.clone(),
                    mutable: false,
                    ty,
                },
            );
            i = i + 1;
        }
        if let Some(body) = &function.body {
            let body_ty = self.check_block(body, &mut context);
            if should_check_body_tail(body) {
                self.expect_assignable(source_id, sig.return_type, body_ty, body.span);
            }
        }
    }

    fn check_block(&mut self, block: &HirBlock, context: &mut BodyContext) -> (r: TypeId)
        requires
            old(self).wf(),
            context_below(*old(context), old(self).types@.len() as int),
        ensures
            final(self).body_step(old(self), *final(context), *old(context)),
            r@ < final(self).types@.len(),
            block.statements@.len() == 0 || !(block.statements@.last() is Expr) ==> final(self).types@[r@ as int]@
                == TypeKindView::Unit,
            block.statements@.len() > 0 ==> (block.statements@.last() matches HirStatement::Expr(e)
                ==> final(self).expressions@.len() > 0 && final(self).expressions@.last().ty == r
                && final(self).expressions@.last().span == hir_expr_span(e) && final(self).expressions@.last().owner@
                == old(context).owner@),
        decreases block, 10nat,
    {
        let mut result = self.unit_type();
        let mut i: usize = 0;
        while i < block.statements.len()
            invariant
                self.body_step(old(self), *context, *old(context)),
                result@ < self.types@.len(),
                i <= block.statements@.len(),
                i == 0 || !(block.statements@[i - 1] is Expr) ==> self.types@[result@ as int]@ == TypeKindView::Unit,
                i > 0 ==> (block.statements@[i - 1] matches HirStatement::Expr(e) ==> self.expressions@.len() > 0
                    && self.expressions@.last().ty == result && self.expressions@.last().span == hir_expr_span(e)
                    && self.expressions@.last().owner@ == old(context).owner@),
            decreases block.statements@.len() - i,
        {
            proof {
                assert(decreases_to!(*block => block.statements));
                assert(decreases_to!(block.statements => block.statements@));
                assert(decreases_to!(block.statements@ => block.statements@[i as int]));
            }
            let statement = &block.statements[i];
            result = match statement {
                HirStatement::Let(l) => {
                    proof {
                        assert(decreases_to!(*statement => *l));
                    }
                    self.check_let(l, context);
                    self.unit_type()
                },
                HirStatement::Return { expr, span } => {
                    let actual = match expr {
                        Some(e) => {
                            proof {
                                assert(decreases_to!(*statement => *expr));
                                assert(decreases_to!(*expr => *e));
                            }
                            self.check_expr(e, context)
                        },
                        None => self.unit_type(),
                    };
                    let expected = context.return_type;
                    self.expect_assignable(context.source_id, expected, actual, *span);
                    self.unit_type()
                },
                HirStatement::Expr(e) => {
                    proof {
                        assert(decreases_to!(*statement => *e));
                    }
                    self.check_expr(e, context)
                },
            };
            i = i + 1;
        }
        result
    }

    fn check_let(&mut self, statement: &HirLet, context: &mut BodyContext)
        requires
            old(self).wf(),
            context_below(*old(context), old(self).types@.len() as int),
        ensures
            final(self).body_step(old(self), *final(context), *old(context)),
            statement.local matches Some(l) ==> {
                let last = final(self).locals@.last();
                &&& final(self).locals@.len() > 0
                &&& last.local == l
                &&& last.mutable == statement.mutable
                &&& last.owner@ == old(context).owner@
                &&& last.name@ == match statement.name {
                    Some(n) => n@,
                    None => "<missing>"@,
                }
                &&& statement.ty is None && statement.value is None ==> final(self).types@[last.ty@ as int]@
                    == TypeKindView::Error
                &&& exists|k: int|
                    0 <= k < final(context).bindings@.len() && (#[trigger] final(context).bindings@[k]).0 == l
                        && final(context).bindings@[k].1.ty == last.ty && final(context).bindings@[k].1.mutable
                        == statement.mutable && final(context).bindings@[k].1.name@ == last.name@
            },
        decreases statement, 10nat,
    {
        let empty: Vec<String> = Vec::new();
        let annotation = match &statement.ty {
            Some(ty) => Some(self.resolve_type_ref(context.source_id, ty, &empty)),
            None => None,
        };
        let value = match &statement.value {
            Some(e) => {
                proof {
                    assert(decreases_to!(*statement => statement.value));
                }
                Some(self.check_expr(e, context))
            },
            None => None,
        };
        if let (Some(expected), Some(actual)) = (annotation, value) {
            self.expect_assignable(context.source_id, expected, actual, statement.span);
        }
        let ty = match annotation {
            Some(t) => t,
            None => match value {
                Some(t) => t,
                None => self.error_type(),
            },
        };
        if let Some(local) = statement.local {
            let name = match &statement.name {
                Some(n) => n.clone(),
                None => owned("<missing>"),
            };
            bind_local(context, local, name.clone(), statement.mutable, ty);
            self.locals.push(
                LocalType {
                    owner: context.owner.clone(),
                    local,
                    name,
                    mutable: statement.mutable,
                    ty,
                },
            );
        }
    }

    fn check_expr(&mut self, expr: &HirExpr, context: &mut BodyContext) -> (r: TypeId)
        requires
            old(self).wf(),
            context_below(*old(context), old(self).types@.len() as int),
        ensures
            final(self).body_step(old(self), *final(context), *old(context)),
            r@ < final(self).types@.len(),
            final(self).expressions@.len() > old(self).expressions@.len(),
            final(self).expressions@.len() > 0,
            final(self).expressions@.last().owner@ == old(context).owner@,
            final(self).expressions@.last().span == hir_expr_span(*expr),
            final(self).expressions@.last().ty == r,
        decreases expr, 10nat,
    {
        let ty = match expr {
            HirExpr::Missing { .. } => self.error_type(),
            HirExpr::Literal { text, .. } => self.literal_type(text.as_str()),
            HirExpr::Path { resolved, .. } => self.path_type(resolved, context),
            HirExpr::Call { .. } => self.check_call(expr, context),
            HirExpr::Block(block) => self.check_block(block, context),
            HirExpr::If { .. } => self.check_if(expr, context),
            HirExpr::Match { .. } => self.check_match(expr, context),
            HirExpr::Binary { .. } => self.check_binary(expr, context),
            HirExpr::Try { .. } => self.check_try(expr, context),
        };
        self.expressions.push(ExprType { owner: context.owner.clone(), span: expr_span(expr), ty });
        ty
    }

    fn check_if(&mut self, expr: &HirExpr, context: &mut BodyContext) -> (r: TypeId)
        requires
            old(self).wf(),
            context_below(*old(context), old(self).types@.len() as int),
            *expr is If,
        ensures
            final(self).body_step(old(self), *final(context), *old(context)),
            r@ < final(self).types@.len(),
            expr->If_else_branch is None ==> final(self).types@[r@ as int]@ == TypeKindView::Unit,
        decreases expr, 5nat,
    {
        match expr {
            HirExpr::If { condition, then_block, else_branch, span } => {
                let condition_ty = self.check_expr(condition, context);
                let bool_ty = self.intern_simple(TypeKind::Bool);
                self.expect_assignable(context.source_id, bool_ty, condition_ty, expr_span(condition));
                let then_ty = self.check_block(then_block, context);
                match else_branch {
                    Some(branch) => {
                        proof {
                            assert(decreases_to!(*expr => (*expr)->If_else_branch));
                        }
                        let else_ty = self.check_expr(branch, context);
                        self.expect_assignable(context.source_id, then_ty, else_ty, *span);
                        then_ty
                    },
                    None => self.unit_type(),
                }
            },
            _ => vstd::pervasive::unreached(),
        }
    }

    fn check_match(&mut self, expr: &HirExpr, context: &mut BodyContext) -> (r: TypeId)
        requires
            old(self).wf(),
            context_below(*old(context), old(self).types@.len() as int),
            *expr is Match,
        ensures
            final(self).body_step(old(self), *final(context), *old(context)),
            r@ < final(self).types@.len(),
            expr->Match_arms@.len() == 0 ==> final(self).types@[r@ as int]@ == TypeKindView::Unit,
        decreases expr, 5nat,
    {
        match expr {
            HirExpr::Match { scrutinee, arms, span } => {
                let scrutinee_ty = self.check_expr(scrutinee, context);
                let mut arm_ty: Option<TypeId> = None;
                let mut covers_all = false;
                let mut covered: Vec<SymbolId> = Vec::new();
                let mut i: usize = 0;
                while i < arms.len()
                    invariant
                        self.body_step(old(self), *context, *old(context)),
                        scrutinee_ty@ < self.types@.len(),
                        arm_ty matches Some(t) ==> t@ < self.types@.len(),
                        *expr == (HirExpr::Match { scrutinee: *scrutinee, arms: *arms, span: *span }),
                        i <= arms@.len(),
                        i == 0 ==> arm_ty is None,
                    decreases arms@.len() - i,
                {
                    let arm = &arms[i];
                    let saved = copy_bindings(&context.bindings);
                    let coverage = self.check_pattern(&arm.pattern, scrutinee_ty, context);
                    match coverage {
                        PatternCoverage::All => {
                            covers_all = true;
                        },
                        PatternCoverage::Variant(symbol) => {
                            covered.push(symbol);
                        },
                        PatternCoverage::Partial => {},
                    }
                    proof {
                        assert(decreases_to!(*expr => (*expr)->Match_arms));
                        assert((*expr)->Match_arms == *arms);
                        assert(decreases_to!(*arms => arms@));
                        assert(decreases_to!(arms@ => arms@[i as int]));
                        assert(decreases_to!(arms@[i as int] => arms@[i as int].expr));
                    }
                    let ty = self.check_expr(&arm.expr, context);
                    match arm_ty {
                        Some(expected) => {
                            self.expect_assignable(context.source_id, expected, ty, arm.span);
                        },
                        None => {
                            arm_ty = Some(ty);
                        },
                    }
                    context.bindings = saved;
                    i = i + 1;
                }
                self.check_match_exhaustive(context.source_id, scrutinee_ty, &covered, covers_all, *span);
                match arm_ty {
                    Some(t) => t,
                    None => self.unit_type(),
                }
            },
            _ => vstd::pervasive::unreached(),
        }
    }

    fn check_pattern(&mut self, pattern: &HirPattern, scrutinee_ty: TypeId, context: &mut BodyContext) -> (r: PatternCoverage)
        requires
            old(self).wf(),
            context_below(*old(context), old(self).types@.len() as int),
            scrutinee_ty@ < old(self).types@.len(),
        ensures
            final(self).body_step(old(self), *final(context), *old(context)),
            *pattern is Wildcard || *pattern is Binding ==> r == PatternCoverage::All,
            *pattern is Literal ==> r == PatternCoverage::Partial,
            *pattern matches HirPattern::Path { resolved, .. } ==> r == old(self).variant_coverage(resolved),
    {
        match pattern {
            HirPattern::Wildcard { .. } => PatternCoverage::All,
            HirPattern::Binding { local, name, .. } => {
                bind_local(context, *local, name.clone(), false, scrutinee_ty);
                self.locals.push(
                    LocalType {
                        owner: context.owner.clone(),
                        local: *local,
                        name: name.clone(),
                        mutable: false,
                        ty: scrutinee_ty,
                    },
                );
                PatternCoverage::All
            },
            HirPattern::Literal { text, span } => {
                let literal_ty = self.literal_type(text.as_str());
                self.expect_assignable(context.source_id, scrutinee_ty, literal_ty, *span);
                PatternCoverage::Partial
            },
            HirPattern::Path { resolved, span, .. } => {
                self.check_variant_pattern(resolved, scrutinee_ty, *span, context.source_id)
            },
        }
    }

    fn check_variant_pattern(&mut self, resolved: &Option<ResolvedPath>, scrutinee_ty: TypeId, span: TextRange, source_id: SourceId) -> (r: PatternCoverage)
        requires
            old(self).wf(),
        ensures
            final(self).wf(),
            final(self).extends(old(self)),
            r == old(self).variant_coverage(*resolved),
            r is Partial ==> final(self).diagnostics@.len() == old(self).diagnostics@.len() + 1
                && final(self).diagnostics@.last()@.code == MD_INVALID_PATTERN@,
    {
        let variant_symbol = match resolved {
            Some(ResolvedPath::Symbol(symbol)) => *symbol,
            _ => {
                self.push(
                    source_id,
                    MD_INVALID_PATTERN,
                    span,
                    "路径模式必须指向 enum 变体",
                    "当前版本仅支持 `_`、绑定、字面量和 enum 变体模式",
                );
                return PatternCoverage::Partial;
            },
        };
        let k = match self.variant_index(variant_symbol) {
            Some(k) => k,
            None => {
                self.push(
                    source_id,
                    MD_INVALID_PATTERN,
                    span,
                    "路径模式必须指向 enum 变体",
                    "请使用形如 `Option.Some` 或 `Result.Err` 的变体路径",
                );
                return PatternCoverage::Partial;
            },
        };
        let enum_symbol = self.variants[k].1.enum_symbol;
        let enum_generics = copy_strings(&self.variants[k].1.enum_generics);
        let matches_enum = match self.kind_of(scrutinee_ty) {
            TypeKind::Nominal { symbol, .. } => symbol.get() == enum_symbol.get(),
            _ => false,
        };
        if !matches_enum {
            let expected = self.nominal_over(enum_symbol, &enum_generics, false);
            self.push_mismatch(source_id, expected, scrutinee_ty, span);
        }
        PatternCoverage::Variant(variant_symbol)
    }

    fn check_match_exhaustive(&mut self, source_id: SourceId, scrutinee_ty: TypeId, covered: &Vec<SymbolId>, covers_all: bool, span: TextRange)
        requires
            old(self).wf(),
        ensures
            final(self).wf(),
            final(self).extends(old(self)),
            final(self).types@ == old(self).types@,
            covers_all || scrutinee_ty@ >= old(self).types@.len() || !(old(self).types@[scrutinee_ty@ as int] is Nominal)
                ==> *final(self) == *old(self),
            final(self).diagnostics@ == old(self).diagnostics@ || (final(self).diagnostics@.len()
                == old(self).diagnostics@.len() + 1 && final(self).diagnostics@.drop_last() == old(self).diagnostics@),
    {
        if covers_all || self.is_error(scrutinee_ty) {
            return;
        }
        let symbol = match self.kind_of(scrutinee_ty) {
            TypeKind::Nominal { symbol, .. } => symbol,
            _ => {
                return;
            },
        };
        let mut list_index: Option<usize> = None;
        let mut e: usize = 0;
        while e < self.enum_variants.len()
            invariant
                e <= self.enum_variants@.len(),
                list_index matches Some(k) ==> k < self.enum_variants@.len(),
            decreases self.enum_variants@.len() - e,
        {
            if self.enum_variants[e].0.get() == symbol.get() {
                list_index = Some(e);
                break;
            }
            e = e + 1;
        }
        let list = match list_index {
            Some(k) => copy_symbols(&self.enum_variants[k].1),
            None => {
                return;
            },
        };
        let mut missing: Vec<String> = Vec::new();
        let mut i: usize = 0;
        while i < list.len()
            invariant
                i <= list@.len(),
            decreases list@.len() - i,
        {
            let variant = list[i];
            let mut is_covered = false;
            let mut c: usize = 0;
            while c < covered.len()
                invariant
                    c <= covered@.len(),
                decreases covered@.len() - c,
            {
                if covered[c].get() == variant.get() {
                    is_covered = true;
                }
                c = c + 1;
            }
            if !is_covered {
                if let Some(k) = self.variant_index(variant) {
                    missing.push(self.variants[k].1.name.clone());
                }
            }
            i = i + 1;
        }
        if missing.len() == 0 {
            return;
        }
        let mut message = owned("match 缺少 enum 变体：");
        push_join(&mut message, &missing, ", ");
        self.push(
            source_id,
            MD_NON_EXHAUSTIVE_MATCH,
            span,
            message.as_str(),
            "请补齐所有 enum 变体分支，或添加 `_` 通配分支",
        );
    }

    fn check_try(&mut self, expr: &HirExpr, context: &mut BodyContext) -> (r: TypeId)
        requires
            old(self).wf(),
            context_below(*old(context), old(self).types@.len() as int),
            *expr is Try,
        ensures
            final(self).body_step(old(self), *final(context), *old(context)),
            r@ < final(self).types@.len(),
            final(self).expressions@.len() > 0,
            final(self).expressions@.last().span == hir_expr_span(*expr->Try_expr),
            final(self).result_parts_of(final(self).expressions@.last().ty) is None ==> final(self).types@[r@ as int]@
                == TypeKindView::Error && final(self).diagnostics@.len() > 0 && final(self).diagnostics@.last()@.code
                == MD_INVALID_TRY@,
            final(self).result_parts_of(final(self).expressions@.last().ty) matches Some((ok, _)) ==> r == ok,
            final(self).result_parts_of(final(self).expressions@.last().ty) is Some && final(self).result_parts_of(
                old(context).return_type,
            ) is None ==> final(self).diagnostics@.len() > 0 && final(self).diagnostics@.last()@.code
                == MD_INVALID_TRY@,
        decreases expr, 5nat,
    {
        match expr {
            HirExpr::Try { expr: inner, span } => {
                let expr_ty = self.check_expr(inner, context);
                let (ok_ty, err_ty) = match self.result_parts(expr_ty) {
                    Some(parts) => parts,
                    None => {
                        self.push(
                            context.source_id,
                            MD_INVALID_TRY,
                            *span,
                            "`?` 只能用于 Result 表达式",
                            "请确认 `?` 左侧表达式的类型是 `Result<T, E>`",
                        );
                        return self.error_type();
                    },
                };
                let return_type = context.return_type;
                match self.result_parts(return_type) {
                    Some((_, return_err_ty)) => {
                        self.expect_assignable(context.source_id, return_err_ty, err_ty, *span);
                    },
                    None => {
                        self.push(
                            context.source_id,
                            MD_INVALID_TRY,
                            *span,
                            "`?` 只能出现在返回 Result 的函数中",
                            "请把函数返回类型改为 `Result<T, E>`，或移除 `?`",
                        );
                    },
                }
                ok_ty
            },
            _ => vstd::pervasive::unreached(),
        }
    }

    fn check_binary(&mut self, expr: &HirExpr, context: &mut BodyContext) -> (r: TypeId)
        requires
            old(self).wf(),
            context_below(*old(context), old(self).types@.len() as int),
            *expr is Binary,
        ensures
            final(self).body_step(old(self), *final(context), *old(context)),
            r@ < final(self).types@.len(),
            expr->Binary_op@ == "="@ ==> final(self).types@[r@ as int]@ == TypeKindView::Unit,
            expr->Binary_op@ == "<"@ || expr->Binary_op@ == ">"@ ==> final(self).types@[r@ as int]@
                == TypeKindView::Bool,
            expr->Binary_op@ == "+"@ || expr->Binary_op@ == "-"@ || expr->Binary_op@ == "*"@ || expr->Binary_op@
                == "/"@ ==> final(self).types@[r@ as int]@ == TypeKindView::I32,
            expr->Binary_op@ != "="@ && expr->Binary_op@ != "+"@ && expr->Binary_op@ != "-"@ && expr->Binary_op@
                != "*"@ && expr->Binary_op@ != "/"@ && expr->Binary_op@ != "<"@ && expr->Binary_op@ != ">"@
                ==> final(self).types@[r@ as int]@ == TypeKindView::Error && final(self).diagnostics@.len() > 0
                && final(self).diagnostics@.last()@.code == MD_INVALID_OPERATOR@,
            expr->Binary_op@ != "="@ ==> final(self).i32_operands_checked(
                old(self),
                old(context).owner@,
                old(context).source_id,
                *expr->Binary_left,
                *expr->Binary_right,
            ),
        decreases expr, 5nat,
    {
        proof {
            reveal_strlit("=");
            reveal_strlit("+");
            reveal_strlit("-");
            reveal_strlit("*");
            reveal_strlit("/");
            reveal_strlit("<");
            reveal_strlit(">");
            assert("="@.len() == 1 && "="@[0] == '=');
            assert("+"@.len() == 1 && "+"@[0] == '+');
            assert("-"@.len() == 1 && "-"@[0] == '-');
            assert("*"@.len() == 1 && "*"@[0] == '*');
            assert("/"@.len() == 1 && "/"@[0] == '/');
            assert("<"@.len() == 1 && "<"@[0] == '<');
            assert(">"@.len() == 1 && ">"@[0] == '>');
        }
        match expr {
            HirExpr::Binary { op, left, right, span } => {
                assert(expr->Binary_op@ == op@);
                if str_eq(op, "=") {
                    return self.check_assignment(expr, context);
                }
                let left_ty = self.check_expr(left, context);
                let ghost kl = self.expressions@.len() - 1;
                let right_ty = self.check_expr(right, context);
                let i32_ty = self.intern_simple(TypeKind::I32);
                let ghost s3 = *self;
                self.expect_assignable(context.source_id, i32_ty, left_ty, expr_span(left));
                let ghost s4 = *self;
                self.expect_assignable(context.source_id, i32_ty, right_ty, expr_span(right));
                proof {
                    let src = context.source_id;
                    let ls = hir_expr_span(**left);
                    let rs = hir_expr_span(**right);
                    assert(self.expressions@[kl] == s3.expressions@[kl]);
                    if self.types@[left_ty@ as int]@ != TypeKindView::Error && self.types@[left_ty@ as int]@
                        != TypeKindView::I32 && unify_clash(TypeKindView::I32, self.types@[left_ty@ as int]@) {
                        assert(s3.types@[left_ty@ as int] == self.types@[left_ty@ as int]);
                        let d = s3.diagnostics@.len() as int;
                        assert(s4.diagnostics@[d]@.code == MD_TYPE_MISMATCH@);
                        assert(self.diagnostics@[d] == s4.diagnostics@[d]);
                        assert(self.mismatch_reported_at(old(self).diagnostics@, src, ls));
                    }
                    if self.types@[right_ty@ as int]@ != TypeKindView::Error && self.types@[right_ty@ as int]@
                        != TypeKindView::I32 && unify_clash(TypeKindView::I32, self.types@[right_ty@ as int]@) {
                        assert(s4.types@[right_ty@ as int] == self.types@[right_ty@ as int]);
                        let d = s4.diagnostics@.len() as int;
                        assert(self.diagnostics@[d]@.code == MD_TYPE_MISMATCH@);
                        assert(self.mismatch_reported_at(old(self).diagnostics@, src, rs));
                    }
                    assert(self.i32_operand_checked(old(self).diagnostics@, src, self.expressions@[kl].ty, ls));
                }
                if str_eq(op, "+") || str_eq(op, "-") || str_eq(op, "*") || str_eq(op, "/") {
                    i32_ty
                } else if str_eq(op, "<") || str_eq(op, ">") {
                    self.intern_simple(TypeKind::Bool)
                } else {
                    let mut message = owned("不支持的二元运算符 `");
                    message.append(op);
                    message.append("`");
                    self.push(
                        context.source_id,
                        MD_INVALID_OPERATOR,
                        *span,
                        message.as_str(),
                        "v1 只支持 i32 算术和 i32 比较",
                    );
                    self.error_type()
                }
            },
            _ => vstd::pervasive::unreached(),
        }
    }

    fn check_assignment(&mut self, expr: &HirExpr, context: &mut BodyContext) -> (r: TypeId)
        requires
            old(self).wf(),
            context_below(*old(context), old(self).types@.len() as int),
            *expr is Binary,
        ensures
            final(self).body_step(old(self), *final(context), *old(context)),
            r@ < final(self).types@.len(),
            final(self).types@[r@ as int]@ == TypeKindView::Unit,
            !(*expr->Binary_left matches HirExpr::Path { resolved: Some(ResolvedPath::Local(_)), .. }) ==> reported_since(
                old(self).diagnostics@,
                final(self).diagnostics@,
                MD_INVALID_ASSIGNMENT_TARGET@,
                "赋值左侧必须是局部变量"@,
            ),
            *expr->Binary_left matches HirExpr::Path { resolved: Some(ResolvedPath::Local(l)), .. } ==> forall|k: int|
                0 <= k < final(context).bindings@.len() && (#[trigger] final(context).bindings@[k]).0@ == l@
                    && (forall|j: int| 0 <= j < k ==> final(context).bindings@[j].0@ != l@)
                    && !final(context).bindings@[k].1.mutable ==> reported_since(
                    old(self).diagnostics@,
                    final(self).diagnostics@,
                    MD_IMMUTABLE_ASSIGNMENT@,
                    "不能给不可变变量 `"@ + final(context).bindings@[k].1.name@ + "` 赋值"@,
                ),
        decreases expr, 4nat,
    {
        match expr {
            HirExpr::Binary { left, right, span, .. } => {
                let right_ty = self.check_expr(right, context);
                let local = match &**left {
                    HirExpr::Path { resolved: Some(ResolvedPath::Local(local)), .. } => *local,
                    _ => {
                        let ghost before = self.diagnostics@;
                        self.push(
                            context.source_id,
                            MD_INVALID_ASSIGNMENT_TARGET,
                            *span,
                            "赋值左侧必须是局部变量",
                            "只有 `let mut` 声明的局部变量可以被重新赋值",
                        );
                        proof {
                            assert(self.diagnostics@[before.len() as int] == self.diagnostics@.last());
                        }
                        return self.unit_type();
                    },
                };
                let k = match binding_index(&context.bindings, local) {
                    Some(k) => k,
                    None => {
                        return self.unit_type();
                    },
                };
                let binding_ty = context.bindings[k].1.ty;
                if !context.bindings[k].1.mutable {
                    let mut message = owned("不能给不可变变量 `");
                    message.append(context.bindings[k].1.name.as_str());
                    message.append("` 赋值");
                    let ghost before = self.diagnostics@;
                    self.push(
                        context.source_id,
                        MD_IMMUTABLE_ASSIGNMENT,
                        *span,
                        message.as_str(),
                        "请使用 `let mut` 声明可变绑定",
                    );
                    proof {
                        assert(self.diagnostics@[before.len() as int] == self.diagnostics@.last());
                    }
                }
                let ghost mid = self.diagnostics@;
                self.expect_assignable(context.source_id, binding_ty, right_ty, *span);
                let r = self.unit_type();
                proof {
                    if !context.bindings@[k as int].1.mutable {
                        lemma_reported_persists(
                            old(self).diagnostics@,
                            mid,
                            self.diagnostics@,
                            MD_IMMUTABLE_ASSIGNMENT@,
                            "不能给不可变变量 `"@ + context.bindings@[k as int].1.name@ + "` 赋值"@,
                        );
                    }
                    assert forall|j: int|
                        0 <= j < context.bindings@.len() && (#[trigger] context.bindings@[j]).0@ == local@
                            && (forall|i: int| 0 <= i < j ==> context.bindings@[i].0@ != local@) implies j == k by {
                        if j < k {
                        } else if k < j {
                            assert(context.bindings@[k as int].0@ != local@);
                        }
                    }
                }
                r
            },
            _ => vstd::pervasive::unreached(),
        }
    }

    /// The call rule, for a callee whose checked type is `callee_ty`: a callee that is not of a
    /// function type is reported and the call has the error type; a function called with the
    /// wrong number of arguments is reported and the call has its declared return type.
    spec fn call_rule(&self, before: Seq<Diagnostic>, callee_ty: TypeId, arg_count: nat, r: TypeId) -> bool {
        let k = self.types@[callee_ty@ as int]@;
        &&& callee_ty@ < self.types@.len()
        &&& !(k is Function) ==> self.types@[r@ as int]@ == TypeKindView::Error && reported_since(
            before,
            self.diagnostics@,
            MD_NOT_CALLABLE@,
            "只能调用函数或 enum 变体构造器"@,
        )
        &&& k matches TypeKindView::Function { params, return_type, .. } ==> (params.len() != arg_count ==> r@
            == return_type && reported_since(
            before,
            self.diagnostics@,
            MD_CALL_ARITY@,
            "调用需要 "@ + decimal(params.len()) + " 个参数，但传入了 "@ + decimal(arg_count) + " 个"@,
        ))
    }

    fn check_call(&mut self, expr: &HirExpr, context: &mut BodyContext) -> (r: TypeId)
        requires
            old(self).wf(),
            context_below(*old(context), old(self).types@.len() as int),
            *expr is Call,
        ensures
            final(self).body_step(old(self), *final(context), *old(context)),
            r@ < final(self).types@.len(),
            old(self).core_log_callee(*expr->Call_callee) ==> final(self).types@[r@ as int]@ == TypeKindView::Unit,
            !old(self).core_log_callee(*expr->Call_callee) ==> exists|c: int|
                old(self).expressions@.len() <= c < final(self).expressions@.len()
                    && #[trigger] final(self).expressions@[c].span == hir_expr_span(*expr->Call_callee)
                    && final(self).expressions@[c].owner@ == old(context).owner@ && final(self).call_rule(
                    old(self).diagnostics@,
                    final(self).expressions@[c].ty,
                    expr->Call_args@.len(),
                    r,
                ),
        decreases expr, 5nat,
    {
        match expr {
            HirExpr::Call { callee, args, span } => {
                let callee_ty = self.check_expr(callee, context);
                let ghost c = self.expressions@.len() - 1;
                let ghost mid = *self;
                if self.is_core_log_callee(callee) {
                    return self.check_core_log_call(expr, context);
                }
                let callee_kind = self.kind_of(callee_ty);
                let (generics, params, return_type) = match callee_kind {
                    TypeKind::Function { generics, params, return_type } => (
                        generics,
                        params,
                        return_type,
                    ),
                    _ => {
                        let ghost before = self.diagnostics@;
                        self.push(
                            context.source_id,
                            MD_NOT_CALLABLE,
                            *span,
                            "只能调用函数或 enum 变体构造器",
                            "请确认调用目标是函数名或带载荷的 enum 变体",
                        );
                        proof {
                            assert(self.diagnostics@[before.len() as int] == self.diagnostics@.last());
                        }
                        let e = self.error_type();
                        proof {
                            assert(self.expressions@[c] == mid.expressions@[c]);
                            assert(self.types@[callee_ty@ as int] == mid.types@[callee_ty@ as int]);
                            assert(self.call_rule(old(self).diagnostics@, self.expressions@[c].ty, args@.len(), e));
                            assert(self.expressions@[c].span == hir_expr_span(**callee));
                        }
                        return e;
                    },
                };
                if args.len() != params.len() {
                    let mut message = owned("调用需要 ");
                    push_decimal(&mut message, params.len());
                    message.append(" 个参数，但传入了 ");
                    push_decimal(&mut message, args.len());
                    message.append(" 个");
                    let ghost before = self.diagnostics@;
                    self.push(
                        context.source_id,
                        MD_CALL_ARITY,
                        *span,
                        message.as_str(),
                        "请调整实参数量以匹配函数签名",
                    );
                    proof {
                        assert(self.diagnostics@[before.len() as int] == self.diagnostics@.last());
                        assert(self.expressions@[c] == mid.expressions@[c]);
                        assert(self.types@[callee_ty@ as int] == mid.types@[callee_ty@ as int]);
                        assert(self.call_rule(old(self).diagnostics@, self.expressions@[c].ty, args@.len(), return_type));
                        assert(self.expressions@[c].span == hir_expr_span(**callee));
                    }
                    return return_type;
                }
                proof {
                    lemma_ids_below(params@, callee_ty@ as int);
                }
                let mut substitutions: Vec<(String, TypeId)> = Vec::new();
                let mut expected_params: Vec<TypeId> = Vec::new();
                let mut p: usize = 0;
                while p < params.len()
                    invariant
                        self.wf(),
                        self.extends(old(self)),
                        context_below(*context, self.types@.len() as int),
                        ids_below(params@, self.types@.len() as int),
                        ids_below(expected_params@, self.types@.len() as int),
                        return_type@ < self.types@.len(),
                        self.body_step(old(self), *context, *old(context)),
                        self.extends(&mid),
                        c < mid.expressions@.len(),
                        callee_ty@ < mid.types@.len(),
                        mid.expressions@[c].ty == callee_ty,
                        expected_params@.len() == p,
                        p <= params@.len(),
                    decreases params@.len() - p,
                {
                    proof {
                        assert(type_ids(params@)[p as int] == params@[p as int]@);
                    }
                    let t = self.instantiate_flexible(params[p], &generics);
                    expected_params.push(t);
                    p = p + 1;
                }
                let return_type = self.instantiate_flexible(return_type, &generics);
                let mut i: usize = 0;
                while i < args.len()
                    invariant
                        self.body_step(old(self), *context, *old(context)),
                        self.extends(&mid),
                        c < mid.expressions@.len(),
                        callee_ty@ < mid.types@.len(),
                        mid.expressions@[c].ty == callee_ty,
                        ids_below(expected_params@, self.types@.len() as int),
                        expected_params@.len() == args@.len(),
                        return_type@ < self.types@.len(),
                        subst_below(substitutions@, self.types@.len() as int),
                        *expr == (HirExpr::Call { callee: *callee, args: *args, span: *span }),
                    decreases args@.len() - i,
                {
                    proof {
                        assert(decreases_to!(*expr => (*expr)->Call_args));
                        assert((*expr)->Call_args == *args);
                        assert(decreases_to!(*args => args@));
                        assert(decreases_to!(args@ => args@[i as int]));
                        assert(type_ids(expected_params@)[i as int] == expected_params@[i as int]@);
                    }
                    let actual = self.check_expr(&args[i], context);
                    self.unify(
                        context.source_id,
                        expected_params[i],
                        actual,
                        expr_span(&args[i]),
                        &mut substitutions,
                        UNIFY_DEPTH,
                    );
                    i = i + 1;
                }
                let mut g: usize = 0;
                while g < generics.len()
                    invariant
                        self.body_step(old(self), *context, *old(context)),
                        self.extends(&mid),
                        c < mid.expressions@.len(),
                        callee_ty@ < mid.types@.len(),
                        mid.expressions@[c].ty == callee_ty,
                        return_type@ < self.types@.len(),
                        subst_below(substitutions@, self.types@.len() as int),
                    decreases generics@.len() - g,
                {
                    if let Some(replacement) = subst_get(&substitutions, generics[g].as_str()) {
                        self.substitutions.push(
                            TypeSubstitution { span: *span, generic: generics[g].clone(), replacement },
                        );
                    }
                    g = g + 1;
                }
                let result = self.apply_substitution(return_type, &substitutions);
                proof {
                    assert(self.expressions@[c] == mid.expressions@[c]);
                    assert(self.types@[callee_ty@ as int] == mid.types@[callee_ty@ as int]);
                    assert(self.call_rule(old(self).diagnostics@, self.expressions@[c].ty, args@.len(), result));
                    assert(self.expressions@[c].span == hir_expr_span(**callee));
                }
                result
            },
            _ => vstd::pervasive::unreached(),
        }
    }

    fn check_core_log_call(&mut self, expr: &HirExpr, context: &mut BodyContext) -> (r: TypeId)
        requires
            old(self).wf(),
            context_below(*old(context), old(self).types@.len() as int),
            *expr is Call,
        ensures
            final(self).body_step(old(self), *final(context), *old(context)),
            r@ < final(self).types@.len(),
            final(self).types@[r@ as int]@ == TypeKindView::Unit,
            expr->Call_args@.len() == 0 ==> final(self).diagnostics@.len() == old(self).diagnostics@.len() + 1
                && final(self).diagnostics@.last()@.code == MD_CALL_ARITY@,
        decreases expr, 4nat,
    {
        match expr {
            HirExpr::Call { args, span, .. } => {
                let unit = self.unit_type();
                if args.len() == 0 {
                    self.push(
                        context.source_id,
                        MD_CALL_ARITY,
                        *span,
                        "core.log 至少需要 1 个参数",
                        "请传入日志消息或格式字符串",
                    );
                    return unit;
                }
                proof {
                    assert(decreases_to!(*expr => (*expr)->Call_args));
                    assert(decreases_to!(*args => args@));
                    assert(decreases_to!(args@ => args@[0]));
                }
                let message = &args[0];
                let string = self.intern_simple(TypeKind::String);
                let message_ty = self.check_expr(message, context);
                self.expect_exact(context.source_id, string, message_ty, expr_span(message));
                if args.len() == 1 {
                    return unit;
                }
                let format = match message {
                    HirExpr::Literal { text, .. } => parse_log_format(text.as_str()),
                    _ => None,
                };
                match format {
                    None => {
                        self.push(
                            context.source_id,
                            MD_INVALID_LOG_FORMAT,
                            expr_span(message),
                            "core.log 格式串必须是字符串字面量",
                            "请把第一个参数写成包含 `{}` 占位符的字符串字面量",
                        );
                    },
                    Some(format) => {
                        let expected = format.placeholder_count();
                        let actual = args.len() - 1;
                        if expected != actual {
                            let mut message_text = owned("core.log 格式串需要 ");
                            push_decimal(&mut message_text, expected);
                            message_text.append(" 个插值参数，但传入了 ");
                            push_decimal(&mut message_text, actual);
                            message_text.append(" 个");
                            self.push(
                                context.source_id,
                                MD_CALL_ARITY,
                                *span,
                                message_text.as_str(),
                                "请调整 `{}` 占位符数量或实参数量",
                            );
                        }
                    },
                }
                let mut i: usize = 1;
                while i < args.len()
                    invariant
                        self.body_step(old(self), *context, *old(context)),
                        unit@ < self.types@.len(),
                        self.types@[unit@ as int]@ == TypeKindView::Unit,
                        1 <= i <= args@.len(),
                        *expr == (HirExpr::Call { callee: (*expr)->Call_callee, args: *args, span: *span }),
                    decreases args@.len() - i,
                {
                    proof {
                        assert(decreases_to!(*expr => (*expr)->Call_args));
                        assert(decreases_to!(*args => args@));
                        assert(decreases_to!(args@ => args@[i as int]));
                    }
                    self.check_log_argument(&args[i], context);
                    i = i + 1;
                }
                unit
            },
            _ => vstd::pervasive::unreached(),
        }
    }

    fn check_log_argument(&mut self, arg: &HirExpr, context: &mut BodyContext)
        requires
            old(self).wf(),
            context_below(*old(context), old(self).types@.len() as int),
        ensures
            final(self).body_step(old(self), *final(context), *old(context)),
            final(self).expressions@.len() > 0,
            final(self).expressions@.last().span == hir_expr_span(*arg),
            ({
                let t = final(self).expressions@.last().ty;
                t@ < final(self).types@.len() && !(final(self).types@[t@ as int] is Error) && !(final(self).types@[t@ as int] is I32)
                    && !(final(self).types@[t@ as int] is Bool) && !(final(self).types@[t@ as int] is String)
                    ==> final(self).diagnostics@.len() > 0 && final(self).diagnostics@.last()@.code == MD_TYPE_MISMATCH@
            }),
        decreases arg, 11nat,
    {
        let ty = self.check_expr(arg, context);
        if self.is_error(ty) {
            return;
        }
        let printable = match self.kind_of(ty) {
            TypeKind::I32 | TypeKind::Bool | TypeKind::String => true,
            _ => false,
        };
        if printable {
            return;
        }
        let actual = self.display_type(ty);
        let mut message = owned("core.log 插值参数只支持 `i32`、`bool` 或 `String`，实际是 `");
        message.append(actual.as_str());
        message.append("`");
        self.push(
            context.source_id,
            MD_TYPE_MISMATCH,
            expr_span(arg),
            message.as_str(),
            "请传入可直接打印的标量值",
        );
    }

    fn path_type(&mut self, resolved: &Option<ResolvedPath>, context: &BodyContext) -> (r: TypeId)
        requires
            old(self).wf(),
            context_below(*context, old(self).types@.len() as int),
        ensures
            final(self).wf(),
            final(self).extends(old(self)),
            r@ < final(self).types@.len(),
            match *resolved {
                Some(ResolvedPath::Local(local)) => if forall|k: int|
                    0 <= k < context.bindings@.len() ==> (#[trigger] context.bindings@[k]).0@ != local@ {
                    final(self).types@[r@ as int]@ == TypeKindView::Error && final(self).diagnostics@
                        == old(self).diagnostics@
                } else {
                    *final(self) == *old(self) && exists|k: int|
                        0 <= k < context.bindings@.len() && (#[trigger] context.bindings@[k]).0@ == local@
                            && (forall|j: int| 0 <= j < k ==> context.bindings@[j].0@ != local@)
                            && r == context.bindings@[k].1.ty
                },
                Some(ResolvedPath::Symbol(_)) => true,
                Some(ResolvedPath::Builtin(builtin)) => final(self).types@[r@ as int]@ == builtin_kind(builtin)
                    && final(self).diagnostics@ == old(self).diagnostics@,
                Some(ResolvedPath::Generic(name)) => final(self).types@[r@ as int]@ == TypeKindView::Generic(
                    name@,
                ) && final(self).diagnostics@ == old(self).diagnostics@,
                None => final(self).types@[r@ as int]@ == TypeKindView::Error && final(self).diagnostics@
                    == old(self).diagnostics@,
            },
    {
        match resolved {
            Some(ResolvedPath::Local(local)) => match binding_index(&context.bindings, *local) {
                Some(k) => context.bindings[k].1.ty,
                None => self.error_type(),
            },
            Some(ResolvedPath::Symbol(symbol)) => self.symbol_value_type(*symbol),
            Some(ResolvedPath::Builtin(builtin)) => self.builtin_type(*builtin),
            Some(ResolvedPath::Generic(name)) => self.intern_simple(TypeKind::Generic(name.clone())),
            None => self.error_type(),
        }
    }

    fn symbol_value_type(&mut self, symbol: SymbolId) -> (r: TypeId)
        requires
            old(self).wf(),
        ensures
            final(self).wf(),
            final(self).extends(old(self)),
            r@ < final(self).types@.len(),
    {
        if symbol.get() >= self.package.symbols.len() {
            return self.error_type();
        }
        match self.package.symbols[symbol.get()].kind {
            SymbolKind::Function => match self.function_index(symbol) {
                Some(k) => {
                    let sig = copy_sig(&self.functions[k].1);
                    self.function_type(&sig)
                },
                None => self.error_type(),
            },
            SymbolKind::Struct | SymbolKind::Enum | SymbolKind::Trait => match self.item_type_of(symbol) {
                Some(t) => t,
                None => self.error_type(),
            },
            SymbolKind::Variant => self.variant_value_type(symbol),
            SymbolKind::Module | SymbolKind::Impl => self.error_type(),
        }
    }

    fn variant_value_type(&mut self, symbol: SymbolId) -> (r: TypeId)
        requires
            old(self).wf(),
        ensures
            final(self).wf(),
            final(self).extends(old(self)),
            r@ < final(self).types@.len(),
    {
        let k = match self.variant_index(symbol) {
            Some(k) => k,
            None => {
                return self.error_type();
            },
        };
        let enum_symbol = self.variants[k].1.enum_symbol;
        let generics = copy_strings(&self.variants[k].1.enum_generics);
        let fields = copy_ids(&self.variants[k].1.fields);
        let return_type = self.nominal_over(enum_symbol, &generics, true);
        if fields.len() == 0 {
            return return_type;
        }
        proof {
            lemma_ids_below(fields@, self.types@.len() as int);
        }
        self.intern(TypeKind::Function { generics, params: fields, return_type })
    }

    fn literal_type(&mut self, text: &str) -> (r: TypeId)
        requires
            old(self).wf(),
        ensures
            final(self).wf(),
            final(self).extends(old(self)),
            r@ < final(self).types@.len(),
    {
        if literal_prefix(text, "int(") {
            self.intern_simple(TypeKind::I32)
        } else if literal_prefix(text, "bool(") {
            self.intern_simple(TypeKind::Bool)
        } else if literal_prefix(text, "string(") {
            self.intern_simple(TypeKind::String)
        } else {
            self.error_type()
        }
    }

    /// The `Ok` and `Err` types of a `Result` type.
    spec fn result_parts_of(&self, ty: TypeId) -> Option<(TypeId, TypeId)> {
        if ty@ < self.types@.len() && (self.types@[ty@ as int] matches TypeKind::Nominal { symbol, args }
            && args@.len() == 2 && self.names_symbol(symbol, "Result"@)) {
            Some((self.types@[ty@ as int]->Nominal_args@[0], self.types@[ty@ as int]->Nominal_args@[1]))
        } else {
            None
        }
    }

    fn result_parts(&self, ty: TypeId) -> (r: Option<(TypeId, TypeId)>)
        requires
            self.wf(),
        ensures
            r matches Some((a, b)) ==> a@ < self.types@.len() && b@ < self.types@.len(),
            r == self.result_parts_of(ty),
    {
        proof {
            reveal_strlit("Result");
        }
        if ty.get() >= self.types.len() {
            return None;
        }
        match &self.types[ty.get()] {
            TypeKind::Nominal { symbol, args } => {
                if args.len() != 2 || !self.symbol_has_name(*symbol, "Result") {
                    return None;
                }
                proof {
                    assert(kind_below(self.types@[ty@ as int]@, ty@ as int));
                    assert(type_ids(args@)[0] == args@[0]@);
                    assert(type_ids(args@)[1] == args@[1]@);
                }
                Some((args[0], args[1]))
            },
            _ => None,
        }
    }

    /// The last path segment of `symbol` is `name`.
    spec fn names_symbol(&self, symbol: SymbolId, name: Seq<char>) -> bool {
        symbol@ < self.package.symbols@.len() && self.package.symbols@[symbol@ as int].path@.len() > 0
            && self.package.symbols@[symbol@ as int].path@.last()@ == name
    }

    fn symbol_has_name(&self, symbol: SymbolId, name: &str) -> (r: bool)
        ensures
            r == self.names_symbol(symbol, name@),
    {
        if symbol.get() >= self.package.symbols.len() {
            return false;
        }
        let path = &self.package.symbols[symbol.get()].path;
        if path.len() == 0 {
            return false;
        }
        str_eq(path[path.len() - 1].as_str(), name)
    }

    /// `callee` is a path to the built-in `core.log` function.
    spec fn core_log_callee(&self, callee: HirExpr) -> bool {
        callee matches HirExpr::Path { resolved: Some(ResolvedPath::Symbol(symbol)), .. } && symbol@
                < self.package.symbols@.len() && self.package.symbols@[symbol@ as int].kind == SymbolKind::Function
                && self.package.symbols@[symbol@ as int].path@.len() == 2
                && self.package.symbols@[symbol@ as int].path@[0]@ == "core"@
                && self.package.symbols@[symbol@ as int].path@[1]@ == "log"@
    }

    fn is_core_log_callee(&self, callee: &HirExpr) -> (r: bool)
        ensures
            r == self.core_log_callee(*callee),
    {
        proof {
            reveal_strlit("core");
            reveal_strlit("log");
        }
        let symbol = match callee {
            HirExpr::Path { resolved: Some(ResolvedPath::Symbol(symbol)), .. } => *symbol,
            _ => {
                return false;
            },
        };
        if symbol.get() >= self.package.symbols.len() {
            return false;
        }
        let info = &self.package.symbols[symbol.get()];
        info.kind == SymbolKind::Function && info.path.len() == 2 && str_eq(
            info.path[0].as_str(),
            "core",
        ) && str_eq(info.path[1].as_str(), "log")
    }

    fn expect_exact(&mut self, source_id: SourceId, expected: TypeId, actual: TypeId, span: TextRange)
        requires
            old(self).wf(),
        ensures
            final(self).wf(),
            final(self).extends(old(self)),
    {
        if self.is_error(expected) || self.is_error(actual) || expected.get() == actual.get() {
            return;
        }
        self.push_mismatch(source_id, expected, actual, span);
    }

    fn expect_assignable(&mut self, source_id: SourceId, expected: TypeId, actual: TypeId, span: TextRange)
        requires
            old(self).wf(),
        ensures
            final(self).wf(),
            final(self).extends(old(self)),
            final(self).expressions@ == old(self).expressions@,
            !unify_skips(old(self).types@, expected, actual, UNIFY_DEPTH) && unify_clash(
                old(self).types@[expected@ as int]@,
                old(self).types@[actual@ as int]@,
            ) ==> final(self).diagnostics@.len() == old(self).diagnostics@.len() + 1
                && final(self).diagnostics@.last()@.code == MD_TYPE_MISMATCH@
                && final(self).diagnostics@.last()@.span == span_in_sources(
                old(self).sources@,
                source_id,
                span,
                old(self).sources@.len() as int,
            ),
    {
        let mut substitutions: Vec<(String, TypeId)> = Vec::new();
        self.unify(source_id, expected, actual, span, &mut substitutions, UNIFY_DEPTH);
    }

    fn unify(&mut self, source_id: SourceId, expected: TypeId, actual: TypeId, span: TextRange, substitutions: &mut Vec<(String, TypeId)>, depth: usize)
        requires
            old(self).wf(),
            subst_below(old(substitutions)@, old(self).types@.len() as int),
        ensures
            final(self).wf(),
            final(self).extends(old(self)),
            final(self).expressions@ == old(self).expressions@,
            subst_below(final(substitutions)@, final(self).types@.len() as int),
            unify_skips(old(self).types@, expected, actual, depth) ==> *final(self) == *old(self)
                && final(substitutions)@ == old(substitutions)@,
            !unify_skips(old(self).types@, expected, actual, depth) && unify_clash(
                old(self).types@[expected@ as int]@,
                old(self).types@[actual@ as int]@,
            ) ==> final(substitutions)@ == old(substitutions)@ && final(self).diagnostics@.len()
                == old(self).diagnostics@.len() + 1 && final(self).diagnostics@.drop_last() == old(self).diagnostics@
                && final(self).diagnostics@.last()@.code == MD_TYPE_MISMATCH@
                && final(self).diagnostics@.last()@.span == span_in_sources(
                old(self).sources@,
                source_id,
                span,
                old(self).sources@.len() as int,
            ),
        decreases depth, 0nat,
    {
        if depth == 0 {
            return;
        }
        if self.is_error(expected) || self.is_error(actual) || expected.get() == actual.get() {
            return;
        }
        let expected_kind = self.kind_of(expected);
        let actual_kind = self.kind_of(actual);
        match (expected_kind, actual_kind) {
            (TypeKind::Infer(name), _) => {
                self.bind_infer(source_id, name.as_str(), actual, span, substitutions, depth - 1);
            },
            (_, TypeKind::Infer(name)) => {
                self.bind_infer(source_id, name.as_str(), expected, span, substitutions, depth - 1);
            },
            (
                TypeKind::Nominal { symbol: expected_symbol, args: expected_args },
                TypeKind::Nominal { symbol: actual_symbol, args: actual_args },
            ) => {
                if expected_symbol.get() == actual_symbol.get() && expected_args.len()
                    == actual_args.len() {
                    proof {
                        lemma_ids_below(expected_args@, expected@ as int);
                        lemma_ids_below(actual_args@, actual@ as int);
                    }
                    let mut i: usize = 0;
                    while i < expected_args.len()
                        invariant
                            self.wf(),
                            self.extends(old(self)),
                            subst_below(substitutions@, self.types@.len() as int),
                            expected_args@.len() == actual_args@.len(),
                            ids_below(expected_args@, self.types@.len() as int),
                            ids_below(actual_args@, self.types@.len() as int),
                            depth > 0,
                            self.expressions@ == old(self).expressions@,
                        decreases expected_args@.len() - i,
                    {
                        self.unify(
                            source_id,
                            expected_args[i],
                            actual_args[i],
                            span,
                            substitutions,
                            depth - 1,
                        );
                        i = i + 1;
                    }
                } else {
                    self.push_mismatch(source_id, expected, actual, span);
                }
            },
            (TypeKind::Generic(expected_name), TypeKind::Generic(actual_name)) => {
                if !str_eq(expected_name.as_str(), actual_name.as_str()) {
                    self.push_mismatch(source_id, expected, actual, span);
                }
            },
            _ => {
                self.push_mismatch(source_id, expected, actual, span);
            },
        }
    }

    fn bind_infer(&mut self, source_id: SourceId, name: &str, replacement: TypeId, span: TextRange, substitutions: &mut Vec<(String, TypeId)>, depth: usize)
        requires
            old(self).wf(),
            subst_below(old(substitutions)@, old(self).types@.len() as int),
            replacement@ < old(self).types@.len(),
        ensures
            final(self).wf(),
            final(self).extends(old(self)),
            final(self).expressions@ == old(self).expressions@,
            subst_below(final(substitutions)@, final(self).types@.len() as int),
            (forall|k: int| 0 <= k < old(substitutions)@.len() ==> (#[trigger] old(substitutions)@[k]).0@ != name@)
                ==> *final(self) == *old(self) && final(substitutions)@.drop_last() == old(substitutions)@
                && final(substitutions)@.len() == old(substitutions)@.len() + 1
                && final(substitutions)@.last().0@ == name@ && final(substitutions)@.last().1 == replacement,
        decreases depth, 1nat,
    {
        match subst_get(substitutions, name) {
            Some(existing) => {
                self.unify(source_id, existing, replacement, span, substitutions, depth);
            },
            None => {
                substitutions.push((name.to_string(), replacement));
            },
        }
    }

    fn apply_substitution(&mut self, ty: TypeId, substitutions: &Vec<(String, TypeId)>) -> (r: TypeId)
        requires
            old(self).wf(),
            ty@ < old(self).types@.len(),
            subst_below(substitutions@, old(self).types@.len() as int),
        ensures
            final(self).wf(),
            final(self).extends(old(self)),
            r@ < final(self).types@.len(),
            is_scalar_kind(old(self).types@[ty@ as int]@) ==> r == ty && *final(self) == *old(self),
            type_var_name(old(self).types@[ty@ as int]@) matches Some(n) ==> *final(self) == *old(self) && ((
            forall|k: int| 0 <= k < substitutions@.len() ==> (#[trigger] substitutions@[k]).0@ != n) ==> r == ty)
                && ((exists|k: int| 0 <= k < substitutions@.len() && (#[trigger] substitutions@[k]).0@ == n)
                ==> exists|k: int| #[trigger] first_named(substitutions@, n, k) && r == substitutions@[k].1),
            same_shape(old(self).types@[ty@ as int]@, final(self).types@[r@ as int]@),
        decreases ty@,
    {
        let kind = self.kind_of(ty);
        match kind {
            TypeKind::Generic(name) | TypeKind::Infer(name) => match subst_get(substitutions, name.as_str()) {
                Some(t) => {
                    proof {
                        let k = choose|k: int|
                            0 <= k < substitutions@.len() && (#[trigger] substitutions@[k]).0@ == name@
                                && substitutions@[k].1 == t && forall|j: int|
                                0 <= j < k ==> substitutions@[j].0@ != name@;
                        assert(first_named(substitutions@, name@, k));
                    }
                    t
                },
                None => ty,
            },
            TypeKind::Nominal { symbol, args } => {
                proof {
                    lemma_ids_below(args@, ty@ as int);
                }
                let mut new_args: Vec<TypeId> = Vec::new();
                let mut i: usize = 0;
                while i < args.len()
                    invariant
                        self.wf(),
                        self.extends(old(self)),
                        ids_below(args@, ty@ as int),
                        ids_below(new_args@, self.types@.len() as int),
                        subst_below(substitutions@, self.types@.len() as int),
                        ty@ < self.types@.len(),
                        i <= args@.len(),
                        new_args@.len() == i,
                    decreases args@.len() - i,
                {
                    proof {
                        assert(type_ids(args@)[i as int] == args@[i as int]@);
                    }
                    let t = self.apply_substitution(args[i], substitutions);
                    new_args.push(t);
                    i = i + 1;
                }
                proof {
                    lemma_ids_below(new_args@, self.types@.len() as int);
                }
                self.intern(TypeKind::Nominal { symbol, args: new_args })
            },
            TypeKind::Function { generics, params, return_type } => {
                proof {
                    lemma_ids_below(params@, ty@ as int);
                }
                let mut new_params: Vec<TypeId> = Vec::new();
                let mut i: usize = 0;
                while i < params.len()
                    invariant
                        self.wf(),
                        self.extends(old(self)),
                        ids_below(params@, ty@ as int),
                        ids_below(new_params@, self.types@.len() as int),
                        subst_below(substitutions@, self.types@.len() as int),
                        ty@ < self.types@.len(),
                        i <= params@.len(),
                        new_params@.len() == i,
                    decreases params@.len() - i,
                {
                    proof {
                        assert(type_ids(params@)[i as int] == params@[i as int]@);
                    }
                    let t = self.apply_substitution(params[i], substitutions);
                    new_params.push(t);
                    i = i + 1;
                }
                let new_return = self.apply_substitution(return_type, substitutions);
                proof {
                    lemma_ids_below(new_params@, self.types@.len() as int);
                }
                self.intern(TypeKind::Function { generics, params: new_params, return_type: new_return })
            },
            _ => ty,
        }
    }

    fn instantiate_flexible(&mut self, ty: TypeId, generics: &Vec<String>) -> (r: TypeId)
        requires
            old(self).wf(),
            ty@ < old(self).types@.len(),
        ensures
            final(self).wf(),
            final(self).extends(old(self)),
            r@ < final(self).types@.len(),
            is_scalar_kind(old(self).types@[ty@ as int]@) || old(self).types@[ty@ as int]@ is Infer ==> r == ty
                && *final(self) == *old(self),
            old(self).types@[ty@ as int]@ matches TypeKindView::Generic(n) ==> if exists|k: int|
                0 <= k < generics@.len() && (#[trigger] generics@[k])@ == n {
                final(self).types@[r@ as int]@ == TypeKindView::Infer(n)
            } else {
                r == ty && *final(self) == *old(self)
            },
            same_shape(old(self).types@[ty@ as int]@, final(self).types@[r@ as int]@),
        decreases ty@,
    {
        let kind = self.kind_of(ty);
        match kind {
            TypeKind::Generic(name) => {
                if contains_string(generics, name.as_str()) {
                    self.intern_simple(TypeKind::Infer(name))
                } else {
                    ty
                }
            },
            TypeKind::Nominal { symbol, args } => {
                proof {
                    lemma_ids_below(args@, ty@ as int);
                }
                let mut new_args: Vec<TypeId> = Vec::new();
                let mut i: usize = 0;
                while i < args.len()
                    invariant
                        self.wf(),
                        self.extends(old(self)),
                        ids_below(args@, ty@ as int),
                        ids_below(new_args@, self.types@.len() as int),
                        ty@ < self.types@.len(),
                        i <= args@.len(),
                        new_args@.len() == i,
                    decreases args@.len() - i,
                {
                    proof {
                        assert(type_ids(args@)[i as int] == args@[i as int]@);
                    }
                    let t = self.instantiate_flexible(args[i], generics);
                    new_args.push(t);
                    i = i + 1;
                }
                proof {
                    lemma_ids_below(new_args@, self.types@.len() as int);
                }
                self.intern(TypeKind::Nominal { symbol, args: new_args })
            },
            TypeKind::Function { generics: inner_generics, params, return_type } => {
                proof {
                    lemma_ids_below(params@, ty@ as int);
                }
                let mut new_params: Vec<TypeId> = Vec::new();
                let mut i: usize = 0;
                while i < params.len()
                    invariant
                        self.wf(),
                        self.extends(old(self)),
                        ids_below(params@, ty@ as int),
                        ids_below(new_params@, self.types@.len() as int),
                        ty@ < self.types@.len(),
                        i <= params@.len(),
                        new_params@.len() == i,
                    decreases params@.len() - i,
                {
                    proof {
                        assert(type_ids(params@)[i as int] == params@[i as int]@);
                    }
                    let t = self.instantiate_flexible(params[i], generics);
                    new_params.push(t);
                    i = i + 1;
                }
                let new_return = self.instantiate_flexible(return_type, generics);
                proof {
                    lemma_ids_below(new_params@, self.types@.len() as int);
                }
                self.intern(
                    TypeKind::Function {
                        generics: inner_generics,
                        params: new_params,
                        return_type: new_return,
                    },
                )
            },
            _ => ty,
        }
    }
}

} // verus!
