//! High-level intermediate representation produced after name resolution.
use vstd::prelude::*;
use vstd::string::*;

use crate::ast::{
    deeper, deeper_pad, emit, generics_lines, lemma_lines_of_all, lemma_lines_of_step, lines_of,
    name_str, name_text, named_line, path_string, path_text, push_range, range_line, range_text,
    text_line, dump_generics,
};
use crate::source::{SourceId, TextRange};
use crate::text::{decimal, join, owned, push_decimal, push_join, str_eq, string_views};

verus! {

/// Stable module identifier inside one resolver result.
#[derive(Clone, Copy, Debug, PartialEq, Eq, Structural, Hash, PartialOrd, Ord)]
pub struct ModuleId(usize);

impl View for ModuleId {
    type V = usize;

    closed spec fn view(&self) -> usize {
        self.0
    }
}

impl ModuleId {
    /// Creates an id from a stable numeric index.
    pub fn new(value: usize) -> (r: Self)
        ensures
            r@ == value,
    {
        ModuleId(value)
    }

    /// Returns the raw index.
    pub fn get(self) -> (r: usize)
        ensures
            r == self@,
    {
        self.0
    }

    /// Dump form: `m` followed by the index.
    pub fn dump_text(self) -> (r: String)
        ensures
            r@ == "m"@ + decimal(self@ as nat),
    {
        let mut s = owned("m");
        push_decimal(&mut s, self.0);
        s
    }
}

/// Stable item identifier inside one resolver result.
#[derive(Clone, Copy, Debug, PartialEq, Eq, Structural, Hash, PartialOrd, Ord)]
pub struct ItemId(usize);

impl View for ItemId {
    type V = usize;

    closed spec fn view(&self) -> usize {
        self.0
    }
}

impl ItemId {
    /// Creates an id from a stable numeric index.
    pub fn new(value: usize) -> (r: Self)
        ensures
            r@ == value,
    {
        ItemId(value)
    }

    /// Returns the raw index.
    pub fn get(self) -> (r: usize)
        ensures
            r == self@,
    {
        self.0
    }

    /// Dump form: `i` followed by the index.
    pub fn dump_text(self) -> (r: String)
        ensures
            r@ == "i"@ + decimal(self@ as nat),
    {
        let mut s = owned("i");
        push_decimal(&mut s, self.0);
        s
    }
}

/// Stable symbol identifier inside one resolver result.
#[derive(Clone, Copy, Debug, PartialEq, Eq, Structural, Hash, PartialOrd, Ord)]
pub struct SymbolId(usize);

impl View for SymbolId {
    type V = usize;

    closed spec fn view(&self) -> usize {
        self.0
    }
}

impl SymbolId {
    /// Creates an id from a stable numeric index.
    pub fn new(value: usize) -> (r: Self)
        ensures
            r@ == value,
    {
        SymbolId(value)
    }

    /// Returns the raw index.
    pub fn get(self) -> (r: usize)
        ensures
            r == self@,
    {
        self.0
    }

    /// Dump form: `s` followed by the index.
    pub fn dump_text(self) -> (r: String)
        ensures
            r@ == "s"@ + decimal(self@ as nat),
    {
        let mut s = owned("s");
        push_decimal(&mut s, self.0);
        s
    }
}

/// Stable local binding identifier inside one function-like body.
#[derive(Clone, Copy, Debug, PartialEq, Eq, Structural, Hash, PartialOrd, Ord)]
pub struct LocalId(usize);

impl View for LocalId {
    type V = usize;

    closed spec fn view(&self) -> usize {
        self.0
    }
}

impl LocalId {
    /// Creates an id from a stable numeric index.
    pub fn new(value: usize) -> (r: Self)
        ensures
            r@ == value,
    {
        LocalId(value)
    }

    /// Returns the raw index.
    pub fn get(self) -> (r: usize)
        ensures
            r == self@,
    {
        self.0
    }

    /// Dump form: `l` followed by the index.
    pub fn dump_text(self) -> (r: String)
        ensures
            r@ == "l"@ + decimal(self@ as nat),
    {
        let mut s = owned("l");
        push_decimal(&mut s, self.0);
        s
    }
}

/// Resolved HIR package containing all input modules.
#[derive(Debug)]
pub struct HirPackage {
    /// Modules in resolver input order.
    pub modules: Vec<HirModule>,
    /// Symbols in deterministic allocation order.
    pub symbols: Vec<Symbol>,
}

/// Resolved source module.
#[derive(Debug)]
pub struct HirModule {
    /// Stable module id.
    pub id: ModuleId,
    /// Source file id.
    pub source_id: SourceId,
    /// Declared module path, or a generated root path for files without `module`.
    pub path: Vec<String>,
    /// Import declarations in source order.
    pub imports: Vec<HirImport>,
    /// Top-level items in source order.
    pub items: Vec<HirItem>,
    /// Source span.
    pub span: TextRange,
}

/// Resolved import declaration.
#[derive(Debug)]
pub struct HirImport {
    /// Imported path segments.
    pub path: Vec<String>,
    /// Resolved target symbol, if the import was valid.
    pub resolved: Option<SymbolId>,
    /// Import span.
    pub span: TextRange,
}

/// Resolved top-level item.
#[derive(Debug)]
pub struct HirItem {
    /// Stable item id.
    pub id: ItemId,
    /// Stable item symbol.
    pub symbol: SymbolId,
    /// Item contents.
    pub kind: HirItemKind,
    /// Source span.
    pub span: TextRange,
}

/// Top-level item contents.
#[derive(Debug)]
pub enum HirItemKind {
    /// Function declaration.
    Function(HirFunction),
    /// Struct declaration.
    Struct(HirStruct),
    /// Enum declaration.
    Enum(HirEnum),
    /// Trait declaration.
    Trait(HirTrait),
    /// Impl block.
    Impl(HirImpl),
}

/// Resolved symbol.
#[derive(Debug)]
pub struct Symbol {
    /// Symbol id.
    pub id: SymbolId,
    /// Symbol kind.
    pub kind: SymbolKind,
    /// Fully qualified path.
    pub path: Vec<String>,
    /// Owning module.
    pub owner: ModuleId,
    /// Optional owning item for top-level items and child symbols.
    pub item: Option<ItemId>,
    /// Declaration span.
    pub span: TextRange,
}

/// Symbol kind.
#[derive(Clone, Copy, Debug, PartialEq, Eq, Structural)]
pub enum SymbolKind {
    /// Module symbol.
    Module,
    /// Function symbol.
    Function,
    /// Struct symbol.
    Struct,
    /// Enum symbol.
    Enum,
    /// Enum variant symbol.
    Variant,
    /// Trait symbol.
    Trait,
    /// Impl block symbol.
    Impl,
}

/// Stable dump string of a symbol kind.
pub open spec fn symbol_kind_text(k: SymbolKind) -> Seq<char> {
    match k {
        SymbolKind::Module => "module"@,
        SymbolKind::Function => "function"@,
        SymbolKind::Struct => "struct"@,
        SymbolKind::Enum => "enum"@,
        SymbolKind::Variant => "variant"@,
        SymbolKind::Trait => "trait"@,
        SymbolKind::Impl => "impl"@,
    }
}

impl SymbolKind {
    /// Returns the stable dump string for this symbol kind.
    pub fn as_str(self) -> (r: &'static str)
        ensures
            r@ == symbol_kind_text(self),
    {
        match self {
            SymbolKind::Module => "module",
            SymbolKind::Function => "function",
            SymbolKind::Struct => "struct",
            SymbolKind::Enum => "enum",
            SymbolKind::Variant => "variant",
            SymbolKind::Trait => "trait",
            SymbolKind::Impl => "impl",
        }
    }
}

/// Built-in type known before package resolution.
#[derive(Clone, Copy, Debug, PartialEq, Eq, Structural)]
pub enum BuiltinType {
    /// `Int`.
    Int,
    /// `i32`.
    I32,
    /// `Bool`.
    Bool,
    /// `bool`.
    BoolLower,
    /// `String`.
    String,
    /// `unit`.
    Unit,
}

/// Stable name of a built-in type.
pub open spec fn builtin_name(b: BuiltinType) -> Seq<char> {
    match b {
        BuiltinType::Int => "Int"@,
        BuiltinType::I32 => "i32"@,
        BuiltinType::Bool => "Bool"@,
        BuiltinType::BoolLower => "bool"@,
        BuiltinType::String => "String"@,
        BuiltinType::Unit => "unit"@,
    }
}

/// The built-in type with a given name.
pub open spec fn builtin_named(name: Seq<char>) -> Option<BuiltinType> {
    if name == "Int"@ {
        Some(BuiltinType::Int)
    } else if name == "i32"@ {
        Some(BuiltinType::I32)
    } else if name == "Bool"@ {
        Some(BuiltinType::Bool)
    } else if name == "bool"@ {
        Some(BuiltinType::BoolLower)
    } else if name == "String"@ {
        Some(BuiltinType::String)
    } else if name == "unit"@ {
        Some(BuiltinType::Unit)
    } else {
        None
    }
}

impl BuiltinType {
    /// Resolves a built-in type by name.
    pub fn from_name(name: &str) -> (r: Option<Self>)
        ensures
            r == builtin_named(name@),
    {
        if str_eq(name, "Int") {
            Some(BuiltinType::Int)
        } else if str_eq(name, "i32") {
            Some(BuiltinType::I32)
        } else if str_eq(name, "Bool") {
            Some(BuiltinType::Bool)
        } else if str_eq(name, "bool") {
            Some(BuiltinType::BoolLower)
        } else if str_eq(name, "String") {
            Some(BuiltinType::String)
        } else if str_eq(name, "unit") {
            Some(BuiltinType::Unit)
        } else {
            None
        }
    }

    /// Returns the stable built-in type name.
    pub fn as_str(self) -> (r: &'static str)
        ensures
            r@ == builtin_name(self),
    {
        match self {
            BuiltinType::Int => "Int",
            BuiltinType::I32 => "i32",
            BuiltinType::Bool => "Bool",
            BuiltinType::BoolLower => "bool",
            BuiltinType::String => "String",
            BuiltinType::Unit => "unit",
        }
    }
}

/// A resolved path target.
#[derive(Debug)]
pub enum ResolvedPath {
    /// Package symbol target.
    Symbol(SymbolId),
    /// Function-local binding target.
    Local(LocalId),
    /// Function generic parameter target.
    Generic(String),
    /// Built-in type target.
    Builtin(BuiltinType),
}

/// Dump text of a resolution result.
pub open spec fn resolved_text(r: Option<ResolvedPath>) -> Seq<char> {
    match r {
        Some(ResolvedPath::Symbol(s)) => "s"@ + decimal(s@ as nat),
        Some(ResolvedPath::Local(l)) => "l"@ + decimal(l@ as nat),
        Some(ResolvedPath::Generic(name)) => "generic:"@ + name@,
        Some(ResolvedPath::Builtin(b)) => "builtin:"@ + builtin_name(b),
        None => "<unresolved>"@,
    }
}

/// Dump text of an optional symbol.
pub open spec fn resolved_symbol_text(r: Option<SymbolId>) -> Seq<char> {
    match r {
        Some(s) => "s"@ + decimal(s@ as nat),
        None => "<unresolved>"@,
    }
}

fn resolved_string(r: &Option<ResolvedPath>) -> (s: String)
    ensures
        s@ == resolved_text(*r),
{
    match r {
        Some(ResolvedPath::Symbol(sym)) => sym.dump_text(),
        Some(ResolvedPath::Local(local)) => local.dump_text(),
        Some(ResolvedPath::Generic(name)) => {
            let mut s = owned("generic:");
            s.append(name.as_str());
            s
        },
        Some(ResolvedPath::Builtin(b)) => {
            let mut s = owned("builtin:");
            s.append(b.as_str());
            s
        },
        None => owned("<unresolved>"),
    }
}

fn resolved_symbol_string(r: Option<SymbolId>) -> (s: String)
    ensures
        s@ == resolved_symbol_text(r),
{
    match r {
        Some(sym) => sym.dump_text(),
        None => owned("<unresolved>"),
    }
}

/// Resolved type reference.
#[derive(Debug)]
pub struct HirTypeRef {
    /// Source path segments.
    pub path: Vec<String>,
    /// Resolved path target, when resolution succeeded.
    pub resolved: Option<ResolvedPath>,
    /// Generic argument types.
    pub generic_args: Vec<HirTypeRef>,
    /// Source span.
    pub span: TextRange,
}

/// Source-like display of a resolved type.
pub open spec fn hir_type_display(t: HirTypeRef) -> Seq<char>
    decreases t, 1int,
{
    path_text(t.path@) + if t.generic_args@.len() == 0 {
        Seq::empty()
    } else {
        "<"@ + join(hir_type_displays(t.generic_args@), ", "@) + ">"@
    }
}

/// Displays of a sequence of resolved types.
pub open spec fn hir_type_displays(ts: Seq<HirTypeRef>) -> Seq<Seq<char>>
    decreases ts, 0int,
{
    if ts.len() == 0 {
        Seq::empty()
    } else {
        hir_type_displays(ts.subrange(0, ts.len() - 1)).push(hir_type_display(ts[ts.len() - 1]))
    }
}

impl HirTypeRef {
    /// Stable source-like type display.
    pub fn display(&self) -> (r: String)
        ensures
            r@ == hir_type_display(*self),
        decreases self,
    {
        let mut output = String::new();
        push_join(&mut output, &self.path, ".");
        if self.generic_args.len() > 0 {
            let mut args: Vec<String> = Vec::new();
            let mut i: usize = 0;
            while i < self.generic_args.len()
                invariant
                    i <= self.generic_args@.len(),
                    string_views(args@) == hir_type_displays(
                        self.generic_args@.subrange(0, i as int),
                    ),
                decreases self.generic_args@.len() - i,
            {
                let shown = self.generic_args[i].display();
                let ghost before = args@;
                args.push(shown);
                proof {
                    let sub = self.generic_args@.subrange(0, i + 1);
                    assert(sub.subrange(0, sub.len() - 1) =~= self.generic_args@.subrange(
                        0,
                        i as int,
                    ));
                    assert(string_views(args@) =~= string_views(before).push(shown@));
                }
                i = i + 1;
            }
            proof {
                assert(self.generic_args@.subrange(0, self.generic_args@.len() as int)
                    =~= self.generic_args@);
            }
            output.append("<");
            push_join(&mut output, &args, ", ");
            output.append(">");
        }
        proof {
            assert(output@ =~= hir_type_display(*self));
        }
        output
    }
}

/// Resolved function declaration.
#[derive(Debug)]
pub struct HirFunction {
    /// Function name.
    pub name: String,
    /// Generic parameter names.
    pub generics: Vec<String>,
    /// Parameters in source order.
    pub params: Vec<HirParam>,
    /// Optional return type.
    pub return_type: Option<HirTypeRef>,
    /// Optional body.
    pub body: Option<HirBlock>,
    /// Locals allocated for parameters and let-bindings.
    pub locals: Vec<HirLocal>,
    /// Source span.
    pub span: TextRange,
}

/// Function parameter.
#[derive(Debug)]
pub struct HirParam {
    /// Parameter local id.
    pub local: LocalId,
    /// Parameter name.
    pub name: String,
    /// Optional parameter type.
    pub ty: Option<HirTypeRef>,
    /// Source span.
    pub span: TextRange,
}

/// Resolved function-local binding.
#[derive(Debug)]
pub struct HirLocal {
    /// Stable local id.
    pub id: LocalId,
    /// Binding name.
    pub name: String,
    /// Binding kind.
    pub kind: LocalKind,
    /// Source span.
    pub span: TextRange,
}

/// Local binding kind.
#[derive(Clone, Copy, Debug, PartialEq, Eq, Structural)]
pub enum LocalKind {
    /// Function parameter.
    Param,
    /// `let` binding.
    Let,
    /// Pattern binding.
    Pattern,
}

/// Stable dump string of a local kind.
pub open spec fn local_kind_text(k: LocalKind) -> Seq<char> {
    match k {
        LocalKind::Param => "param"@,
        LocalKind::Let => "let"@,
        LocalKind::Pattern => "pattern"@,
    }
}

impl LocalKind {
    /// Returns the stable dump string.
    pub fn as_str(self) -> (r: &'static str)
        ensures
            r@ == local_kind_text(self),
    {
        match self {
            LocalKind::Param => "param",
            LocalKind::Let => "let",
            LocalKind::Pattern => "pattern",
        }
    }
}

/// Struct declaration.
#[derive(Debug)]
pub struct HirStruct {
    /// Struct name.
    pub name: String,
    /// Generic parameter names.
    pub generics: Vec<String>,
    /// Fields in source order.
    pub fields: Vec<HirField>,
}

/// Struct field.
#[derive(Debug)]
pub struct HirField {
    /// Field name.
    pub name: String,
    /// Optional field type.
    pub ty: Option<HirTypeRef>,
    /// Source span.
    pub span: TextRange,
}

/// Enum declaration.
#[derive(Debug)]
pub struct HirEnum {
    /// Enum name.
    pub name: String,
    /// Generic parameter names.
    pub generics: Vec<String>,
    /// Variants in source order.
    pub variants: Vec<HirVariant>,
}

/// Enum variant declaration.
#[derive(Debug)]
pub struct HirVariant {
    /// Variant symbol.
    pub symbol: SymbolId,
    /// Variant name.
    pub name: String,
    /// Payload types.
    pub fields: Vec<HirTypeRef>,
    /// Source span.
    pub span: TextRange,
}

/// Trait declaration.
#[derive(Debug)]
pub struct HirTrait {
    /// Trait name.
    pub name: String,
    /// Generic parameter names.
    pub generics: Vec<String>,
    /// Function signatures in source order.
    pub functions: Vec<HirFunction>,
}

/// Impl block.
#[derive(Debug)]
pub struct HirImpl {
    /// Optional trait path for `impl Trait for Type`.
    pub trait_path: Option<HirTypeRef>,
    /// Impl target type.
    pub target: Option<HirTypeRef>,
    /// Methods in source order.
    pub methods: Vec<HirFunction>,
}

/// Resolved block expression.
#[derive(Debug)]
pub struct HirBlock {
    /// Statements in source order.
    pub statements: Vec<HirStatement>,
    /// Source span.
    pub span: TextRange,
}

/// Resolved statement.
#[derive(Debug)]
pub enum HirStatement {
    /// `let` statement.
    Let(HirLet),
    /// `return` statement.
    Return {
        /// Optional returned expression.
        expr: Option<HirExpr>,
        /// Source span.
        span: TextRange,
    },
    /// Expression statement.
    Expr(HirExpr),
}

/// Resolved `let` statement.
#[derive(Debug)]
pub struct HirLet {
    /// Whether `mut` appears.
    pub mutable: bool,
    /// Let local, when a binding name was present.
    pub local: Option<LocalId>,
    /// Binding name.
    pub name: Option<String>,
    /// Optional type annotation.
    pub ty: Option<HirTypeRef>,
    /// Optional initializer.
    pub value: Option<HirExpr>,
    /// Source span.
    pub span: TextRange,
}

/// Resolved expression.
#[derive(Debug)]
pub enum HirExpr {
    /// Missing expression placeholder after parse recovery.
    Missing { span: TextRange },
    /// Literal expression.
    Literal { text: String, span: TextRange },
    /// Path expression.
    Path {
        /// Source path segments.
        path: Vec<String>,
        /// Resolved target.
        resolved: Option<ResolvedPath>,
        /// Source span.
        span: TextRange,
    },
    /// Function call expression.
    Call {
        /// Callee expression.
        callee: Box<HirExpr>,
        /// Argument expressions.
        args: Vec<HirExpr>,
        /// Source span.
        span: TextRange,
    },
    /// Block expression.
    Block(HirBlock),
    /// `if` expression.
    If {
        /// Condition expression.
        condition: Box<HirExpr>,
        /// Then block.
        then_block: HirBlock,
        /// Optional else branch.
        else_branch: Option<Box<HirExpr>>,
        /// Source span.
        span: TextRange,
    },
    /// `match` expression.
    Match {
        /// Matched expression.
        scrutinee: Box<HirExpr>,
        /// Match arms.
        arms: Vec<HirMatchArm>,
        /// Source span.
        span: TextRange,
    },
    /// Binary expression.
    Binary {
        /// Operator text.
        op: &'static str,
        /// Left expression.
        left: Box<HirExpr>,
        /// Right expression.
        right: Box<HirExpr>,
        /// Source span.
        span: TextRange,
    },
    /// Postfix `?` expression.
    Try {
        /// Inner expression.
        expr: Box<HirExpr>,
        /// Source span.
        span: TextRange,
    },
}

/// Resolved match arm.
#[derive(Debug)]
pub struct HirMatchArm {
    /// Arm pattern.
    pub pattern: HirPattern,
    /// Arm expression.
    pub expr: HirExpr,
    /// Source span.
    pub span: TextRange,
}

/// Resolved pattern.
#[derive(Debug)]
pub enum HirPattern {
    /// `_`.
    Wildcard { span: TextRange },
    /// Binding pattern.
    Binding {
        /// Binding local id.
        local: LocalId,
        /// Binding name.
        name: String,
        /// Source span.
        span: TextRange,
    },
    /// Literal pattern.
    Literal { text: String, span: TextRange },
    /// Path pattern.
    Path {
        /// Source path segments.
        path: Vec<String>,
        /// Resolved target.
        resolved: Option<ResolvedPath>,
        /// Source span.
        span: TextRange,
    },
}

// ---------------------------------------------------------------------------
// Dump
// ---------------------------------------------------------------------------

/// The line of a resolved type reference.
pub open spec fn hir_type_line(t: HirTypeRef, pad: Seq<char>) -> Seq<char> {
    pad + "Type "@ + hir_type_display(t) + " -> "@ + resolved_text(t.resolved) + " "@ + range_text(
        t.span,
    )
}

pub open spec fn hir_type_lines_fn(pad: Seq<char>) -> spec_fn(HirTypeRef) -> Seq<Seq<char>> {
    |t: HirTypeRef| seq![hir_type_line(t, pad)]
}

/// The line of an optional resolved type.
pub open spec fn hir_opt_type_lines(t: Option<HirTypeRef>, pad: Seq<char>) -> Seq<Seq<char>> {
    match t {
        Some(t) => seq![hir_type_line(t, pad)],
        None => Seq::empty(),
    }
}

/// A heading line followed by the line of an optional resolved type.
pub open spec fn hir_labeled_type_lines(label: Seq<char>, t: Option<HirTypeRef>, pad: Seq<char>) -> Seq<
    Seq<char>,
> {
    match t {
        Some(t) => seq![pad + label, hir_type_line(t, deeper(pad))],
        None => Seq::empty(),
    }
}

/// The line of a resolved pattern.
pub open spec fn hir_pattern_line(p: HirPattern, pad: Seq<char>) -> Seq<char> {
    match p {
        HirPattern::Wildcard { span } => pad + "Pattern _ "@ + range_text(span),
        HirPattern::Binding { local, name, span } => pad + "Pattern Binding "@ + "l"@ + decimal(
            local@ as nat,
        ) + " "@ + name@ + " "@ + range_text(span),
        HirPattern::Literal { text, span } => pad + "Pattern Literal "@ + text@ + " "@ + range_text(
            span,
        ),
        HirPattern::Path { path, resolved, span } => pad + "Pattern Path "@ + path_text(path@)
            + " -> "@ + resolved_text(resolved) + " "@ + range_text(span),
    }
}

/// Lines of a resolved expression.
pub open spec fn hir_expr_lines(e: HirExpr, pad: Seq<char>) -> Seq<Seq<char>>
    decreases e,
{
    match e {
        HirExpr::Missing { span } => seq![pad + "MissingExpr "@ + range_text(span)],
        HirExpr::Literal { text, span } => seq![
            pad + "Literal "@ + text@ + " "@ + range_text(span),
        ],
        HirExpr::Path { path, resolved, span } => seq![
            pad + "Path "@ + path_text(path@) + " -> "@ + resolved_text(resolved) + " "@
                + range_text(span),
        ],
        HirExpr::Call { callee, args, span } => seq![
            pad + "Call "@ + range_text(span),
            deeper(pad) + "Callee"@,
        ] + hir_expr_lines(*callee, deeper(deeper(pad))) + hir_args_lines(args@, deeper(pad)),
        HirExpr::Block(block) => hir_block_lines(block, pad),
        HirExpr::If { condition, then_block, else_branch, span } => seq![
            pad + "If "@ + range_text(span),
            deeper(pad) + "Condition"@,
        ] + hir_expr_lines(*condition, deeper(deeper(pad))) + seq![deeper(pad) + "Then"@]
            + hir_block_lines(then_block, deeper(deeper(pad))) + match else_branch {
            Some(other) => seq![deeper(pad) + "Else"@] + hir_expr_lines(
                *other,
                deeper(deeper(pad)),
            ),
            None => Seq::empty(),
        },
        HirExpr::Match { scrutinee, arms, span } => seq![
            pad + "Match "@ + range_text(span),
            deeper(pad) + "Scrutinee"@,
        ] + hir_expr_lines(*scrutinee, deeper(deeper(pad))) + hir_arms_lines(arms@, deeper(pad)),
        HirExpr::Binary { op, left, right, span } => seq![
            pad + "Binary "@ + op@ + " "@ + range_text(span),
        ] + hir_expr_lines(*left, deeper(pad)) + hir_expr_lines(*right, deeper(pad)),
        HirExpr::Try { expr, span } => seq![pad + "Try "@ + range_text(span)] + hir_expr_lines(
            *expr,
            deeper(pad),
        ),
    }
}

/// Lines of resolved call arguments.
pub open spec fn hir_args_lines(args: Seq<HirExpr>, pad: Seq<char>) -> Seq<Seq<char>>
    decreases args,
{
    if args.len() == 0 {
        Seq::empty()
    } else {
        hir_args_lines(args.subrange(0, args.len() - 1), pad) + seq![pad + "Arg"@]
            + hir_expr_lines(args[args.len() - 1], deeper(pad))
    }
}

/// Lines of resolved match arms.
pub open spec fn hir_arms_lines(arms: Seq<HirMatchArm>, pad: Seq<char>) -> Seq<Seq<char>>
    decreases arms,
{
    if arms.len() == 0 {
        Seq::empty()
    } else {
        let arm = arms[arms.len() - 1];
        hir_arms_lines(arms.subrange(0, arms.len() - 1), pad) + seq![
            pad + "Arm "@ + range_text(arm.span),
            hir_pattern_line(arm.pattern, deeper(pad)),
        ] + hir_expr_lines(arm.expr, deeper(pad))
    }
}

/// Lines of a resolved block.
pub open spec fn hir_block_lines(b: HirBlock, pad: Seq<char>) -> Seq<Seq<char>>
    decreases b,
{
    seq![pad + "Block "@ + range_text(b.span)] + hir_statements_lines(b.statements@, deeper(pad))
}

/// Lines of resolved statements.
pub open spec fn hir_statements_lines(ss: Seq<HirStatement>, pad: Seq<char>) -> Seq<Seq<char>>
    decreases ss,
{
    if ss.len() == 0 {
        Seq::empty()
    } else {
        hir_statements_lines(ss.subrange(0, ss.len() - 1), pad) + hir_statement_lines(
            ss[ss.len() - 1],
            pad,
        )
    }
}

/// `l<n>` for a let local, `_` when the binding had no name.
pub open spec fn let_local_text(local: Option<LocalId>) -> Seq<char> {
    match local {
        Some(l) => "l"@ + decimal(l@ as nat),
        None => "_"@,
    }
}

/// Lines of a resolved statement.
pub open spec fn hir_statement_lines(st: HirStatement, pad: Seq<char>) -> Seq<Seq<char>>
    decreases st,
{
    match st {
        HirStatement::Let(l) => seq![
            pad + "Let"@ + (if l.mutable {
                " mut"@
            } else {
                Seq::empty()
            }) + " "@ + let_local_text(l.local) + " "@ + name_text(l.name) + " "@ + range_text(
                l.span,
            ),
        ] + hir_labeled_type_lines("Type"@, l.ty, deeper(pad)) + match l.value {
            Some(v) => seq![deeper(pad) + "Value"@] + hir_expr_lines(v, deeper(deeper(pad))),
            None => Seq::empty(),
        },
        HirStatement::Return { expr, span } => seq![pad + "Return "@ + range_text(span)]
            + match expr {
            Some(v) => hir_expr_lines(v, deeper(pad)),
            None => Seq::empty(),
        },
        HirStatement::Expr(e) => hir_expr_lines(e, pad),
    }
}

/// Line of a local binding.
pub open spec fn local_line(l: HirLocal, pad: Seq<char>) -> Seq<char> {
    pad + "l"@ + decimal(l.id@ as nat) + " "@ + l.name@ + " kind="@ + local_kind_text(l.kind) + " "@
        + range_text(l.span)
}

pub open spec fn local_lines_fn(pad: Seq<char>) -> spec_fn(HirLocal) -> Seq<Seq<char>> {
    |l: HirLocal| seq![local_line(l, pad)]
}

/// Lines of a resolved parameter.
pub open spec fn hir_param_lines(p: HirParam, pad: Seq<char>) -> Seq<Seq<char>> {
    seq![
        pad + "Param "@ + "l"@ + decimal(p.local@ as nat) + " "@ + p.name@ + " "@ + range_text(
            p.span,
        ),
    ] + hir_opt_type_lines(p.ty, deeper(pad))
}

pub open spec fn hir_param_lines_fn(pad: Seq<char>) -> spec_fn(HirParam) -> Seq<Seq<char>> {
    |p: HirParam| hir_param_lines(p, pad)
}

/// Lines of a function's contents, below its heading.
pub open spec fn hir_function_contents(f: HirFunction, pad: Seq<char>) -> Seq<Seq<char>> {
    generics_lines(f.generics@, pad) + (if f.locals@.len() == 0 {
        Seq::empty()
    } else {
        seq![pad + "Locals"@] + lines_of(f.locals@, local_lines_fn(deeper(pad)))
    }) + lines_of(f.params@, hir_param_lines_fn(pad)) + hir_labeled_type_lines(
        "ReturnType"@,
        f.return_type,
        pad,
    ) + match f.body {
        Some(b) => hir_block_lines(b, pad),
        None => Seq::empty(),
    }
}

/// Lines of a nested function.
pub open spec fn hir_function_lines(f: HirFunction, pad: Seq<char>) -> Seq<Seq<char>> {
    seq![pad + "Fn "@ + f.name@ + " "@ + range_text(f.span)] + hir_function_contents(f, deeper(pad))
}

pub open spec fn hir_function_lines_fn(pad: Seq<char>) -> spec_fn(HirFunction) -> Seq<Seq<char>> {
    |f: HirFunction| hir_function_lines(f, pad)
}

/// Lines of a struct field.
pub open spec fn hir_field_lines(f: HirField, pad: Seq<char>) -> Seq<Seq<char>> {
    seq![pad + "Field "@ + f.name@ + " "@ + range_text(f.span)] + hir_opt_type_lines(
        f.ty,
        deeper(pad),
    )
}

pub open spec fn hir_field_lines_fn(pad: Seq<char>) -> spec_fn(HirField) -> Seq<Seq<char>> {
    |f: HirField| hir_field_lines(f, pad)
}

/// Lines of an enum variant.
pub open spec fn hir_variant_lines(v: HirVariant, pad: Seq<char>) -> Seq<Seq<char>> {
    seq![
        pad + "Variant "@ + "s"@ + decimal(v.symbol@ as nat) + " "@ + v.name@ + " "@ + range_text(
            v.span,
        ),
    ] + lines_of(v.fields@, hir_type_lines_fn(deeper(pad)))
}

pub open spec fn hir_variant_lines_fn(pad: Seq<char>) -> spec_fn(HirVariant) -> Seq<Seq<char>> {
    |v: HirVariant| hir_variant_lines(v, pad)
}

/// Heading of an item line: `Item i<n> s<n> `.
pub open spec fn item_head(item: HirItem, pad: Seq<char>) -> Seq<char> {
    pad + "Item "@ + "i"@ + decimal(item.id@ as nat) + " "@ + "s"@ + decimal(item.symbol@ as nat)
        + " "@
}

/// Lines of a resolved item.
pub open spec fn hir_item_lines(item: HirItem, pad: Seq<char>) -> Seq<Seq<char>> {
    match item.kind {
        HirItemKind::Function(f) => seq![
            item_head(item, pad) + "Fn "@ + f.name@ + " "@ + range_text(item.span),
        ] + hir_function_contents(f, deeper(pad)),
        HirItemKind::Struct(s) => seq![
            item_head(item, pad) + "Struct "@ + s.name@ + " "@ + range_text(item.span),
        ] + generics_lines(s.generics@, deeper(pad)) + lines_of(
            s.fields@,
            hir_field_lines_fn(deeper(pad)),
        ),
        HirItemKind::Enum(e) => seq![
            item_head(item, pad) + "Enum "@ + e.name@ + " "@ + range_text(item.span),
        ] + generics_lines(e.generics@, deeper(pad)) + lines_of(
            e.variants@,
            hir_variant_lines_fn(deeper(pad)),
        ),
        HirItemKind::Trait(t) => seq![
            item_head(item, pad) + "Trait "@ + t.name@ + " "@ + range_text(item.span),
        ] + generics_lines(t.generics@, deeper(pad)) + lines_of(
            t.functions@,
            hir_function_lines_fn(deeper(pad)),
        ),
        HirItemKind::Impl(i) => seq![item_head(item, pad) + "Impl "@ + range_text(item.span)]
            + hir_labeled_type_lines("Trait"@, i.trait_path, deeper(pad))
            + hir_labeled_type_lines("Target"@, i.target, deeper(pad)) + lines_of(
            i.methods@,
            hir_function_lines_fn(deeper(pad)),
        ),
    }
}

pub open spec fn hir_item_lines_fn(pad: Seq<char>) -> spec_fn(HirItem) -> Seq<Seq<char>> {
    |item: HirItem| hir_item_lines(item, pad)
}

/// Line of a resolved import.
pub open spec fn hir_import_line(i: HirImport, pad: Seq<char>) -> Seq<char> {
    pad + "Import "@ + path_text(i.path@) + " -> "@ + resolved_symbol_text(i.resolved) + " "@
        + range_text(i.span)
}

pub open spec fn hir_import_lines_fn(pad: Seq<char>) -> spec_fn(HirImport) -> Seq<Seq<char>> {
    |i: HirImport| seq![hir_import_line(i, pad)]
}

/// Lines of a resolved module.
pub open spec fn hir_module_lines(m: HirModule, pad: Seq<char>) -> Seq<Seq<char>> {
    seq![
        pad + "Module "@ + "m"@ + decimal(m.id@ as nat) + " "@ + path_text(m.path@) + " source="@
            + decimal(m.source_id@ as nat) + " "@ + range_text(m.span),
    ] + lines_of(m.imports@, hir_import_lines_fn(deeper(pad))) + lines_of(
        m.items@,
        hir_item_lines_fn(deeper(pad)),
    )
}

pub open spec fn hir_module_lines_fn(pad: Seq<char>) -> spec_fn(HirModule) -> Seq<Seq<char>> {
    |m: HirModule| hir_module_lines(m, pad)
}

/// Line of a symbol.
pub open spec fn symbol_line(s: Symbol) -> Seq<char> {
    "    "@ + "s"@ + decimal(s.id@ as nat) + " "@ + path_text(s.path@) + " "@ + "m"@ + decimal(
        s.owner@ as nat,
    ) + " kind="@ + symbol_kind_text(s.kind)
}

pub open spec fn symbol_lines_fn() -> spec_fn(Symbol) -> Seq<Seq<char>> {
    |s: Symbol| seq![symbol_line(s)]
}

/// Lines of a package dump.
pub open spec fn package_lines(p: HirPackage) -> Seq<Seq<char>> {
    seq!["Package"@, "  Symbols"@] + lines_of(p.symbols@, symbol_lines_fn()) + lines_of(
        p.modules@,
        hir_module_lines_fn("  "@),
    )
}

/// The dump text of a package: its lines joined by newlines.
pub open spec fn package_dump(p: HirPackage) -> Seq<char> {
    join(package_lines(p), "\n"@)
}

fn hir_type_line_string(t: &HirTypeRef, pad: &str) -> (r: String)
    ensures
        r@ == hir_type_line(*t, pad@),
{
    let shown = t.display();
    let resolved = resolved_string(&t.resolved);
    let mut l = owned(pad);
    l.append("Type ");
    l.append(shown.as_str());
    l.append(" -> ");
    l.append(resolved.as_str());
    l.append(" ");
    push_range(&mut l, t.span);
    proof {
        assert(l@ =~= hir_type_line(*t, pad@));
    }
    l
}

fn dump_hir_opt_type(out: &mut Vec<String>, t: &Option<HirTypeRef>, pad: &str)
    ensures
        string_views(final(out)@) == string_views(old(out)@) + hir_opt_type_lines(*t, pad@),
{
    match t {
        Some(t) => {
            emit(out, hir_type_line_string(t, pad));
        },
        None => {
            proof {
                assert(string_views(out@) =~= string_views(out@) + Seq::<Seq<char>>::empty());
            }
        },
    }
}

fn dump_hir_labeled_type(out: &mut Vec<String>, label: &str, t: &Option<HirTypeRef>, pad: &str)
    ensures
        string_views(final(out)@) == string_views(old(out)@) + hir_labeled_type_lines(
            label@,
            *t,
            pad@,
        ),
{
    match t {
        Some(t) => {
            emit(out, text_line(pad, label));
            let inner = deeper_pad(pad);
            emit(out, hir_type_line_string(t, inner.as_str()));
            proof {
                assert(string_views(out@) =~= string_views(old(out)@) + hir_labeled_type_lines(
                    label@,
                    Some(*t),
                    pad@,
                ));
            }
        },
        None => {
            proof {
                assert(string_views(out@) =~= string_views(out@) + Seq::<Seq<char>>::empty());
            }
        },
    }
}

/// `pad + head + l<n> + " " + name + " " + range`.
fn local_named_line(pad: &str, head: &str, local: LocalId, name: &str, r: TextRange) -> (s: String)
    ensures
        s@ == pad@ + head@ + "l"@ + decimal(local@ as nat) + " "@ + name@ + " "@ + range_text(r),
{
    let mut l = owned(pad);
    l.append(head);
    let id = local.dump_text();
    l.append(id.as_str());
    l.append(" ");
    l.append(name);
    l.append(" ");
    push_range(&mut l, r);
    proof {
        assert(l@ =~= pad@ + head@ + "l"@ + decimal(local@ as nat) + " "@ + name@ + " "@
            + range_text(r));
    }
    l
}

/// `pad + head + path + " -> " + resolved + " " + range`.
fn resolved_line(pad: &str, head: &str, path: &Vec<String>, resolved: &str, r: TextRange) -> (s:
    String)
    ensures
        s@ == pad@ + head@ + path_text(path@) + " -> "@ + resolved@ + " "@ + range_text(r),
{
    let mut l = owned(pad);
    l.append(head);
    let p = path_string(path);
    l.append(p.as_str());
    l.append(" -> ");
    l.append(resolved);
    l.append(" ");
    push_range(&mut l, r);
    proof {
        assert(l@ =~= pad@ + head@ + path_text(path@) + " -> "@ + resolved@ + " "@ + range_text(r));
    }
    l
}

fn dump_hir_pattern(out: &mut Vec<String>, p: &HirPattern, pad: &str)
    ensures
        string_views(final(out)@) == string_views(old(out)@).push(hir_pattern_line(*p, pad@)),
{
    let line = match p {
        HirPattern::Wildcard { span } => range_line(pad, "Pattern _ ", *span),
        HirPattern::Binding { local, name, span } => local_named_line(
            pad,
            "Pattern Binding ",
            *local,
            name.as_str(),
            *span,
        ),
        HirPattern::Literal { text, span } => named_line(
            pad,
            "Pattern Literal ",
            text.as_str(),
            *span,
        ),
        HirPattern::Path { path, resolved, span } => {
            let text = resolved_string(resolved);
            resolved_line(pad, "Pattern Path ", path, text.as_str(), *span)
        },
    };
    emit(out, line);
}

fn dump_hir_expr(out: &mut Vec<String>, e: &HirExpr, pad: &str)
    ensures
        string_views(final(out)@) == string_views(old(out)@) + hir_expr_lines(*e, pad@),
    decreases e,
{
    let ghost base = string_views(out@);
    match e {
        HirExpr::Missing { span } => {
            emit(out, range_line(pad, "MissingExpr ", *span));
        },
        HirExpr::Literal { text, span } => {
            emit(out, named_line(pad, "Literal ", text.as_str(), *span));
        },
        HirExpr::Path { path, resolved, span } => {
            let text = resolved_string(resolved);
            emit(out, resolved_line(pad, "Path ", path, text.as_str(), *span));
        },
        HirExpr::Call { callee, args, span } => {
            let p2 = deeper_pad(pad);
            let p4 = deeper_pad(p2.as_str());
            emit(out, range_line(pad, "Call ", *span));
            emit(out, text_line(p2.as_str(), "Callee"));
            dump_hir_expr(out, callee, p4.as_str());
            let ghost mid = string_views(out@);
            let mut i: usize = 0;
            while i < args.len()
                invariant
                    i <= args@.len(),
                    p2@ == deeper(pad@),
                    *e == (HirExpr::Call { callee: *callee, args: *args, span: *span }),
                    string_views(out@) == mid + hir_args_lines(args@.subrange(0, i as int), p2@),
                decreases args@.len() - i,
            {
                emit(out, text_line(p2.as_str(), "Arg"));
                let p3 = deeper_pad(p2.as_str());
                proof {
                    assert(decreases_to!(*e => (*e)->Call_args));
                    assert((*e)->Call_args == *args);
                    assert(decreases_to!(*args => args@));
                    assert(decreases_to!(args@ => args@[i as int]));
                }
                dump_hir_expr(out, &args[i], p3.as_str());
                proof {
                    let sub = args@.subrange(0, i + 1);
                    assert(sub.subrange(0, sub.len() - 1) =~= args@.subrange(0, i as int));
                    assert(string_views(out@) =~= mid + hir_args_lines(sub, p2@));
                }
                i = i + 1;
            }
            proof {
                assert(args@.subrange(0, args@.len() as int) =~= args@);
                assert(string_views(out@) =~= base + hir_expr_lines(*e, pad@));
            }
        },
        HirExpr::Block(block) => {
            dump_hir_block(out, block, pad);
        },
        HirExpr::If { condition, then_block, else_branch, span } => {
            let p2 = deeper_pad(pad);
            let p4 = deeper_pad(p2.as_str());
            emit(out, range_line(pad, "If ", *span));
            emit(out, text_line(p2.as_str(), "Condition"));
            dump_hir_expr(out, condition, p4.as_str());
            emit(out, text_line(p2.as_str(), "Then"));
            dump_hir_block(out, then_block, p4.as_str());
            match else_branch {
                Some(other) => {
                    emit(out, text_line(p2.as_str(), "Else"));
                    dump_hir_expr(out, other, p4.as_str());
                },
                None => {},
            }
            proof {
                assert(string_views(out@) =~= base + hir_expr_lines(*e, pad@));
            }
        },
        HirExpr::Match { scrutinee, arms, span } => {
            let p2 = deeper_pad(pad);
            let p4 = deeper_pad(p2.as_str());
            emit(out, range_line(pad, "Match ", *span));
            emit(out, text_line(p2.as_str(), "Scrutinee"));
            dump_hir_expr(out, scrutinee, p4.as_str());
            let ghost mid = string_views(out@);
            let mut i: usize = 0;
            while i < arms.len()
                invariant
                    i <= arms@.len(),
                    p2@ == deeper(pad@),
                    *e == (HirExpr::Match { scrutinee: *scrutinee, arms: *arms, span: *span }),
                    string_views(out@) == mid + hir_arms_lines(arms@.subrange(0, i as int), p2@),
                decreases arms@.len() - i,
            {
                let arm = &arms[i];
                let p3 = deeper_pad(p2.as_str());
                emit(out, range_line(p2.as_str(), "Arm ", arm.span));
                dump_hir_pattern(out, &arm.pattern, p3.as_str());
                proof {
                    assert(decreases_to!(*e => (*e)->Match_arms));
                    assert((*e)->Match_arms == *arms);
                    assert(decreases_to!(*arms => arms@));
                    assert(decreases_to!(arms@ => arms@[i as int]));
                    assert(decreases_to!(arms@[i as int] => arms@[i as int].expr));
                }
                dump_hir_expr(out, &arm.expr, p3.as_str());
                proof {
                    let sub = arms@.subrange(0, i + 1);
                    assert(sub.subrange(0, sub.len() - 1) =~= arms@.subrange(0, i as int));
                    assert(string_views(out@) =~= mid + hir_arms_lines(sub, p2@));
                }
                i = i + 1;
            }
            proof {
                assert(arms@.subrange(0, arms@.len() as int) =~= arms@);
                assert(string_views(out@) =~= base + hir_expr_lines(*e, pad@));
            }
        },
        HirExpr::Binary { op, left, right, span } => {
            let p2 = deeper_pad(pad);
            emit(out, named_line(pad, "Binary ", op, *span));
            dump_hir_expr(out, left, p2.as_str());
            dump_hir_expr(out, right, p2.as_str());
            proof {
                assert(string_views(out@) =~= base + hir_expr_lines(*e, pad@));
            }
        },
        HirExpr::Try { expr, span } => {
            let p2 = deeper_pad(pad);
            emit(out, range_line(pad, "Try ", *span));
            dump_hir_expr(out, expr, p2.as_str());
            proof {
                assert(string_views(out@) =~= base + hir_expr_lines(*e, pad@));
            }
        },
    }
    proof {
        assert(string_views(out@) =~= base + hir_expr_lines(*e, pad@));
    }
}

fn dump_hir_block(out: &mut Vec<String>, b: &HirBlock, pad: &str)
    ensures
        string_views(final(out)@) == string_views(old(out)@) + hir_block_lines(*b, pad@),
    decreases b,
{
    let ghost base = string_views(out@);
    emit(out, range_line(pad, "Block ", b.span));
    let p2 = deeper_pad(pad);
    let ghost mid = string_views(out@);
    let mut i: usize = 0;
    while i < b.statements.len()
        invariant
            i <= b.statements@.len(),
            p2@ == deeper(pad@),
            string_views(out@) == mid + hir_statements_lines(
                b.statements@.subrange(0, i as int),
                p2@,
            ),
        decreases b.statements@.len() - i,
    {
        dump_hir_statement(out, &b.statements[i], p2.as_str());
        proof {
            let sub = b.statements@.subrange(0, i + 1);
            assert(sub.subrange(0, sub.len() - 1) =~= b.statements@.subrange(0, i as int));
            assert(string_views(out@) =~= mid + hir_statements_lines(sub, p2@));
        }
        i = i + 1;
    }
    proof {
        assert(b.statements@.subrange(0, b.statements@.len() as int) =~= b.statements@);
        assert(string_views(out@) =~= base + hir_block_lines(*b, pad@));
    }
}

fn dump_hir_statement(out: &mut Vec<String>, st: &HirStatement, pad: &str)
    ensures
        string_views(final(out)@) == string_views(old(out)@) + hir_statement_lines(*st, pad@),
    decreases st,
{
    let ghost base = string_views(out@);
    match st {
        HirStatement::Let(l) => {
            let mut head = owned(pad);
            head.append("Let");
            if l.mutable {
                head.append(" mut");
            }
            head.append(" ");
            match l.local {
                Some(local) => {
                    let id = local.dump_text();
                    head.append(id.as_str());
                },
                None => {
                    head.append("_");
                },
            }
            head.append(" ");
            head.append(name_str(&l.name));
            head.append(" ");
            push_range(&mut head, l.span);
            proof {
                assert(head@ =~= pad@ + "Let"@ + (if l.mutable {
                    " mut"@
                } else {
                    Seq::empty()
                }) + " "@ + let_local_text(l.local) + " "@ + name_text(l.name) + " "@
                    + range_text(l.span));
            }
            emit(out, head);
            let p2 = deeper_pad(pad);
            dump_hir_labeled_type(out, "Type", &l.ty, p2.as_str());
            match &l.value {
                Some(v) => {
                    let p4 = deeper_pad(p2.as_str());
                    emit(out, text_line(p2.as_str(), "Value"));
                    dump_hir_expr(out, v, p4.as_str());
                },
                None => {},
            }
            proof {
                assert(string_views(out@) =~= base + hir_statement_lines(*st, pad@));
            }
        },
        HirStatement::Return { expr, span } => {
            emit(out, range_line(pad, "Return ", *span));
            match expr {
                Some(v) => {
                    let p2 = deeper_pad(pad);
                    dump_hir_expr(out, v, p2.as_str());
                },
                None => {},
            }
            proof {
                assert(string_views(out@) =~= base + hir_statement_lines(*st, pad@));
            }
        },
        HirStatement::Expr(e) => {
            dump_hir_expr(out, e, pad);
        },
    }
}

fn dump_hir_function_contents(out: &mut Vec<String>, f: &HirFunction, pad: &str)
    ensures
        string_views(final(out)@) == string_views(old(out)@) + hir_function_contents(*f, pad@),
{
    let ghost base = string_views(out@);
    dump_generics(out, &f.generics, pad);
    let ghost after_generics = string_views(out@);
    if f.locals.len() > 0 {
        emit(out, text_line(pad, "Locals"));
        let p2 = deeper_pad(pad);
        let ghost mid = string_views(out@);
        let ghost g = local_lines_fn(p2@);
        let mut i: usize = 0;
        proof {
            assert(mid + lines_of(f.locals@.take(0), g) =~= mid);
        }
        while i < f.locals.len()
            invariant
                i <= f.locals@.len(),
                g == local_lines_fn(p2@),
                string_views(out@) == mid + lines_of(f.locals@.take(i as int), g),
            decreases f.locals@.len() - i,
        {
            let local = &f.locals[i];
            let mut l = owned(p2.as_str());
            let id = local.id.dump_text();
            l.append(id.as_str());
            l.append(" ");
            l.append(local.name.as_str());
            l.append(" kind=");
            l.append(local.kind.as_str());
            l.append(" ");
            push_range(&mut l, local.span);
            proof {
                assert(l@ =~= local_line(*local, p2@));
            }
            emit(out, l);
            proof {
                lemma_lines_of_step(f.locals@, g, i as int);
                assert(string_views(out@) =~= mid + lines_of(f.locals@.take(i + 1), g));
            }
            i = i + 1;
        }
        proof {
            lemma_lines_of_all(f.locals@, g);
        }
    }
    let ghost mid2 = string_views(out@);
    let ghost h = hir_param_lines_fn(pad@);
    let mut j: usize = 0;
    proof {
        assert(mid2 + lines_of(f.params@.take(0), h) =~= mid2);
    }
    while j < f.params.len()
        invariant
            j <= f.params@.len(),
            h == hir_param_lines_fn(pad@),
            string_views(out@) == mid2 + lines_of(f.params@.take(j as int), h),
        decreases f.params@.len() - j,
    {
        let param = &f.params[j];
        emit(out, local_named_line(pad, "Param ", param.local, param.name.as_str(), param.span));
        let p2 = deeper_pad(pad);
        dump_hir_opt_type(out, &param.ty, p2.as_str());
        proof {
            lemma_lines_of_step(f.params@, h, j as int);
            assert(string_views(out@) =~= mid2 + lines_of(f.params@.take(j + 1), h));
        }
        j = j + 1;
    }
    proof {
        lemma_lines_of_all(f.params@, h);
    }
    dump_hir_labeled_type(out, "ReturnType", &f.return_type, pad);
    match &f.body {
        Some(b) => {
            dump_hir_block(out, b, pad);
        },
        None => {},
    }
    proof {
        assert(string_views(out@) =~= base + hir_function_contents(*f, pad@));
    }
}

fn dump_hir_functions(out: &mut Vec<String>, fs: &Vec<HirFunction>, pad: &str)
    ensures
        string_views(final(out)@) == string_views(old(out)@) + lines_of(
            fs@,
            hir_function_lines_fn(pad@),
        ),
{
    let ghost base = string_views(out@);
    let ghost g = hir_function_lines_fn(pad@);
    let mut i: usize = 0;
    proof {
        assert(base + lines_of(fs@.take(0), g) =~= base);
    }
    while i < fs.len()
        invariant
            i <= fs@.len(),
            g == hir_function_lines_fn(pad@),
            string_views(out@) == base + lines_of(fs@.take(i as int), g),
        decreases fs@.len() - i,
    {
        let f = &fs[i];
        let ghost before = string_views(out@);
        emit(out, named_line(pad, "Fn ", f.name.as_str(), f.span));
        let p2 = deeper_pad(pad);
        dump_hir_function_contents(out, f, p2.as_str());
        proof {
            assert(string_views(out@) =~= before + hir_function_lines(*f, pad@));
            lemma_lines_of_step(fs@, g, i as int);
            assert(string_views(out@) =~= base + lines_of(fs@.take(i + 1), g));
        }
        i = i + 1;
    }
    proof {
        lemma_lines_of_all(fs@, g);
    }
}

/// `pad + "Item i<n> s<n> " + kind + name + " " + range`.
fn item_line(pad: &str, item: &HirItem, kind: &str, name: &str) -> (s: String)
    ensures
        s@ == item_head(*item, pad@) + kind@ + name@ + " "@ + range_text(item.span),
{
    let mut l = owned(pad);
    l.append("Item ");
    let id = item.id.dump_text();
    l.append(id.as_str());
    l.append(" ");
    let sym = item.symbol.dump_text();
    l.append(sym.as_str());
    l.append(" ");
    l.append(kind);
    l.append(name);
    l.append(" ");
    push_range(&mut l, item.span);
    proof {
        assert(l@ =~= item_head(*item, pad@) + kind@ + name@ + " "@ + range_text(item.span));
    }
    l
}

fn dump_hir_struct(out: &mut Vec<String>, item: &HirItem, s: &HirStruct, pad: &str)
    requires
        item.kind == HirItemKind::Struct(*s),
    ensures
        string_views(final(out)@) == string_views(old(out)@) + hir_item_lines(*item, pad@),
{
    let ghost base = string_views(out@);
    emit(out, item_line(pad, item, "Struct ", s.name.as_str()));
    let p2 = deeper_pad(pad);
    dump_generics(out, &s.generics, p2.as_str());
    let ghost mid = string_views(out@);
    let ghost g = hir_field_lines_fn(p2@);
    let mut i: usize = 0;
    proof {
        assert(mid + lines_of(s.fields@.take(0), g) =~= mid);
    }
    while i < s.fields.len()
        invariant
            i <= s.fields@.len(),
            p2@ == deeper(pad@),
            g == hir_field_lines_fn(p2@),
            string_views(out@) == mid + lines_of(s.fields@.take(i as int), g),
        decreases s.fields@.len() - i,
    {
        let field = &s.fields[i];
        emit(out, named_line(p2.as_str(), "Field ", field.name.as_str(), field.span));
        let p3 = deeper_pad(p2.as_str());
        dump_hir_opt_type(out, &field.ty, p3.as_str());
        proof {
            lemma_lines_of_step(s.fields@, g, i as int);
            assert(string_views(out@) =~= mid + lines_of(s.fields@.take(i + 1), g));
        }
        i = i + 1;
    }
    proof {
        lemma_lines_of_all(s.fields@, g);
        assert(string_views(out@) =~= base + hir_item_lines(*item, pad@));
    }
}

fn dump_hir_enum(out: &mut Vec<String>, item: &HirItem, en: &HirEnum, pad: &str)
    requires
        item.kind == HirItemKind::Enum(*en),
    ensures
        string_views(final(out)@) == string_views(old(out)@) + hir_item_lines(*item, pad@),
{
    let ghost base = string_views(out@);
    emit(out, item_line(pad, item, "Enum ", en.name.as_str()));
    let p2 = deeper_pad(pad);
    dump_generics(out, &en.generics, p2.as_str());
    let ghost mid = string_views(out@);
    let ghost g = hir_variant_lines_fn(p2@);
    let mut i: usize = 0;
    proof {
        assert(mid + lines_of(en.variants@.take(0), g) =~= mid);
    }
    while i < en.variants.len()
        invariant
            i <= en.variants@.len(),
            p2@ == deeper(pad@),
            g == hir_variant_lines_fn(p2@),
            string_views(out@) == mid + lines_of(en.variants@.take(i as int), g),
        decreases en.variants@.len() - i,
    {
        let variant = &en.variants[i];
        let ghost before = string_views(out@);
        let mut head = owned(p2.as_str());
        head.append("Variant ");
        let sym = variant.symbol.dump_text();
        head.append(sym.as_str());
        head.append(" ");
        head.append(variant.name.as_str());
        head.append(" ");
        push_range(&mut head, variant.span);
        proof {
            assert(head@ =~= p2@ + "Variant "@ + "s"@ + decimal(variant.symbol@ as nat) + " "@
                + variant.name@ + " "@ + range_text(variant.span));
        }
        emit(out, head);
        let p3 = deeper_pad(p2.as_str());
        let ghost inner = string_views(out@);
        let ghost t = hir_type_lines_fn(p3@);
        let mut k: usize = 0;
        proof {
            assert(inner + lines_of(variant.fields@.take(0), t) =~= inner);
        }
        while k < variant.fields.len()
            invariant
                k <= variant.fields@.len(),
                t == hir_type_lines_fn(p3@),
                string_views(out@) == inner + lines_of(variant.fields@.take(k as int), t),
            decreases variant.fields@.len() - k,
        {
            emit(out, hir_type_line_string(&variant.fields[k], p3.as_str()));
            proof {
                lemma_lines_of_step(variant.fields@, t, k as int);
                assert(string_views(out@) =~= inner + lines_of(variant.fields@.take(k + 1), t));
            }
            k = k + 1;
        }
        proof {
            lemma_lines_of_all(variant.fields@, t);
            assert(string_views(out@) =~= before + hir_variant_lines(*variant, p2@));
            lemma_lines_of_step(en.variants@, g, i as int);
            assert(string_views(out@) =~= mid + lines_of(en.variants@.take(i + 1), g));
        }
        i = i + 1;
    }
    proof {
        lemma_lines_of_all(en.variants@, g);
        assert(string_views(out@) =~= base + hir_item_lines(*item, pad@));
    }
}

fn dump_hir_item(out: &mut Vec<String>, item: &HirItem, pad: &str)
    ensures
        string_views(final(out)@) == string_views(old(out)@) + hir_item_lines(*item, pad@),
{
    let ghost base = string_views(out@);
    match &item.kind {
        HirItemKind::Function(f) => {
            emit(out, item_line(pad, item, "Fn ", f.name.as_str()));
            let p2 = deeper_pad(pad);
            dump_hir_function_contents(out, f, p2.as_str());
            proof {
                assert(string_views(out@) =~= base + hir_item_lines(*item, pad@));
            }
        },
        HirItemKind::Struct(s) => {
            dump_hir_struct(out, item, s, pad);
        },
        HirItemKind::Enum(en) => {
            dump_hir_enum(out, item, en, pad);
        },
        HirItemKind::Trait(t) => {
            emit(out, item_line(pad, item, "Trait ", t.name.as_str()));
            let p2 = deeper_pad(pad);
            dump_generics(out, &t.generics, p2.as_str());
            dump_hir_functions(out, &t.functions, p2.as_str());
            proof {
                assert(string_views(out@) =~= base + hir_item_lines(*item, pad@));
            }
        },
        HirItemKind::Impl(i) => {
            let mut head = owned(pad);
            head.append("Item ");
            let id = item.id.dump_text();
            head.append(id.as_str());
            head.append(" ");
            let sym = item.symbol.dump_text();
            head.append(sym.as_str());
            head.append(" ");
            head.append("Impl ");
            push_range(&mut head, item.span);
            proof {
                assert(head@ =~= item_head(*item, pad@) + "Impl "@ + range_text(item.span));
            }
            emit(out, head);
            let p2 = deeper_pad(pad);
            dump_hir_labeled_type(out, "Trait", &i.trait_path, p2.as_str());
            dump_hir_labeled_type(out, "Target", &i.target, p2.as_str());
            dump_hir_functions(out, &i.methods, p2.as_str());
            proof {
                assert(string_views(out@) =~= base + hir_item_lines(*item, pad@));
            }
        },
    }
}

fn dump_hir_module(out: &mut Vec<String>, m: &HirModule, pad: &str)
    ensures
        string_views(final(out)@) == string_views(old(out)@) + hir_module_lines(*m, pad@),
{
    let ghost base = string_views(out@);
    let mut head = owned(pad);
    head.append("Module ");
    let id = m.id.dump_text();
    head.append(id.as_str());
    head.append(" ");
    let path = path_string(&m.path);
    head.append(path.as_str());
    head.append(" source=");
    push_decimal(&mut head, m.source_id.get());
    head.append(" ");
    push_range(&mut head, m.span);
    proof {
        assert(head@ =~= pad@ + "Module "@ + "m"@ + decimal(m.id@ as nat) + " "@ + path_text(
            m.path@,
        ) + " source="@ + decimal(m.source_id@ as nat) + " "@ + range_text(m.span));
    }
    emit(out, head);
    let p2 = deeper_pad(pad);
    let ghost mid = string_views(out@);
    let ghost g = hir_import_lines_fn(p2@);
    let mut i: usize = 0;
    proof {
        assert(mid + lines_of(m.imports@.take(0), g) =~= mid);
    }
    while i < m.imports.len()
        invariant
            i <= m.imports@.len(),
            g == hir_import_lines_fn(p2@),
            string_views(out@) == mid + lines_of(m.imports@.take(i as int), g),
        decreases m.imports@.len() - i,
    {
        let import = &m.imports[i];
        let target = resolved_symbol_string(import.resolved);
        emit(out, resolved_line(p2.as_str(), "Import ", &import.path, target.as_str(), import.span));
        proof {
            lemma_lines_of_step(m.imports@, g, i as int);
            assert(string_views(out@) =~= mid + lines_of(m.imports@.take(i + 1), g));
        }
        i = i + 1;
    }
    proof {
        lemma_lines_of_all(m.imports@, g);
    }
    let ghost mid2 = string_views(out@);
    let ghost h = hir_item_lines_fn(p2@);
    let mut j: usize = 0;
    proof {
        assert(mid2 + lines_of(m.items@.take(0), h) =~= mid2);
    }
    while j < m.items.len()
        invariant
            j <= m.items@.len(),
            h == hir_item_lines_fn(p2@),
            string_views(out@) == mid2 + lines_of(m.items@.take(j as int), h),
        decreases m.items@.len() - j,
    {
        dump_hir_item(out, &m.items[j], p2.as_str());
        proof {
            lemma_lines_of_step(m.items@, h, j as int);
            assert(string_views(out@) =~= mid2 + lines_of(m.items@.take(j + 1), h));
        }
        j = j + 1;
    }
    proof {
        lemma_lines_of_all(m.items@, h);
        assert(string_views(out@) =~= base + hir_module_lines(*m, pad@));
    }
}

impl HirPackage {
    /// Renders a stable dump for snapshot-style tests.
    pub fn dump(&self) -> (r: String)
        ensures
            r@ == package_dump(*self),
    {
        let mut lines: Vec<String> = Vec::new();
        emit(&mut lines, owned("Package"));
        emit(&mut lines, owned("  Symbols"));
        let ghost mid = string_views(lines@);
        let ghost g = symbol_lines_fn();
        let mut i: usize = 0;
        proof {
            assert(mid + lines_of(self.symbols@.take(0), g) =~= mid);
        }
        while i < self.symbols.len()
            invariant
                i <= self.symbols@.len(),
                g == symbol_lines_fn(),
                string_views(lines@) == mid + lines_of(self.symbols@.take(i as int), g),
            decreases self.symbols@.len() - i,
        {
            let symbol = &self.symbols[i];
            let mut l = owned("    ");
            let id = symbol.id.dump_text();
            l.append(id.as_str());
            l.append(" ");
            let path = path_string(&symbol.path);
            l.append(path.as_str());
            l.append(" ");
            let owner = symbol.owner.dump_text();
            l.append(owner.as_str());
            l.append(" kind=");
            l.append(symbol.kind.as_str());
            proof {
                assert(l@ =~= symbol_line(*symbol));
            }
            emit(&mut lines, l);
            proof {
                lemma_lines_of_step(self.symbols@, g, i as int);
                assert(string_views(lines@) =~= mid + lines_of(self.symbols@.take(i + 1), g));
            }
            i = i + 1;
        }
        proof {
            lemma_lines_of_all(self.symbols@, g);
        }
        let ghost mid2 = string_views(lines@);
        let ghost h = hir_module_lines_fn("  "@);
        let mut j: usize = 0;
        proof {
            assert(mid2 + lines_of(self.modules@.take(0), h) =~= mid2);
        }
        while j < self.modules.len()
            invariant
                j <= self.modules@.len(),
                h == hir_module_lines_fn("  "@),
                string_views(lines@) == mid2 + lines_of(self.modules@.take(j as int), h),
            decreases self.modules@.len() - j,
        {
            dump_hir_module(&mut lines, &self.modules[j], "  ");
            proof {
                lemma_lines_of_step(self.modules@, h, j as int);
                assert(string_views(lines@) =~= mid2 + lines_of(self.modules@.take(j + 1), h));
            }
            j = j + 1;
        }
        proof {
            lemma_lines_of_all(self.modules@, h);
            assert(string_views(lines@) =~= package_lines(*self));
        }
        let mut text = String::new();
        push_join(&mut text, &lines, "\n");
        proof {
            assert(text@ =~= package_dump(*self));
        }
        text
    }
}

} // verus!
