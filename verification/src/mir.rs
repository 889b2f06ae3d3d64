//! Mid-level intermediate representation lowered from typed HIR.
use vstd::prelude::*;
use vstd::string::*;

use crate::ast::{emit, lines_of, range_text};
use crate::hir::{
    HirBlock, HirExpr, HirFunction, HirItem, HirItemKind, HirLet, HirLocal, HirModule, HirPattern,
    HirStatement, ItemId, LocalId, LocalKind, ResolvedPath, Symbol, SymbolId, SymbolKind,
};
use crate::resolver::copy_strings;
use crate::source::{SourceId, TextRange};
use crate::text::{decimal, join, owned, push_decimal, push_join, str_eq, string_views};
use crate::typeck::{
    expr_span, hir_expr_span, ExprType, ItemType, LocalType, TypeCheckResult, TypeId, TypeKind, TypeKindView, TypeSubstitution,
};

verus! {

/// Stable MIR function identifier inside one lowered package.
#[derive(Clone, Copy, Debug, PartialEq, Eq, Structural, Hash, PartialOrd, Ord)]
pub struct MirFunctionId(usize);

impl View for MirFunctionId {
    type V = usize;

    closed spec fn view(&self) -> usize {
        self.0
    }
}

impl MirFunctionId {
    /// Creates a MIR function id from a stable numeric index.
    pub fn new(value: usize) -> (r: Self)
        ensures
            r@ == value,
    {
        MirFunctionId(value)
    }

    /// Returns the raw index.
    pub fn get(self) -> (r: usize)
        ensures
            r == self@,
    {
        self.0
    }

    /// Dump form: `f` followed by the index.
    pub fn dump_text(self) -> (r: String)
        ensures
            r@ == "f"@ + decimal(self@ as nat),
    {
        let mut s = owned("f");
        push_decimal(&mut s, self.0);
        s
    }
}

/// Stable basic block identifier inside one MIR function.
#[derive(Clone, Copy, Debug, PartialEq, Eq, Structural, Hash, PartialOrd, Ord)]
pub struct BasicBlockId(usize);

impl View for BasicBlockId {
    type V = usize;

    closed spec fn view(&self) -> usize {
        self.0
    }
}

impl BasicBlockId {
    /// Creates a basic block id from a stable numeric index.
    pub fn new(value: usize) -> (r: Self)
        ensures
            r@ == value,
    {
        BasicBlockId(value)
    }

    /// Returns the raw index.
    pub fn get(self) -> (r: usize)
        ensures
            r == self@,
    {
        self.0
    }

    /// Dump form: `bb` followed by the index.
    pub fn dump_text(self) -> (r: String)
        ensures
            r@ == "bb"@ + decimal(self@ as nat),
    {
        let mut s = owned("bb");
        push_decimal(&mut s, self.0);
        s
    }
}

/// Stable MIR local identifier inside one MIR function.
#[derive(Clone, Copy, Debug, PartialEq, Eq, Structural, Hash, PartialOrd, Ord)]
pub struct MirLocalId(usize);

impl View for MirLocalId {
    type V = usize;

    closed spec fn view(&self) -> usize {
        self.0
    }
}

impl MirLocalId {
    /// Creates a MIR local id from a stable numeric index.
    pub fn new(value: usize) -> (r: Self)
        ensures
            r@ == value,
    {
        MirLocalId(value)
    }

    /// Returns the raw index.
    pub fn get(self) -> (r: usize)
        ensures
            r == self@,
    {
        self.0
    }

    /// Dump form: `v` followed by the index.
    pub fn dump_text(self) -> (r: String)
        ensures
            r@ == "v"@ + decimal(self@ as nat),
    {
        let mut s = owned("v");
        push_decimal(&mut s, self.0);
        s
    }
}

/// Lowered package ready for monomorphization and backend codegen.
#[derive(Debug)]
pub struct MirPackage {
    /// MIR functions in source order.
    pub functions: Vec<MirFunction>,
    /// Type shapes copied from type checking for backend-only layout decisions.
    pub types: Vec<MirTypeKind>,
    /// Symbol metadata copied from name resolution for backend symbol lookup.
    pub symbols: Vec<MirSymbol>,
    /// Generic instantiation observations carried forward for the backend.
    pub instantiations: Vec<MirInstantiation>,
}

/// Backend-visible type shape.
#[derive(Debug)]
pub enum MirTypeKind {
    /// Unknown type after an earlier error.
    Error,
    /// `unit`.
    Unit,
    /// `i32`.
    I32,
    /// `bool`.
    Bool,
    /// `String`.
    String,
    /// Rigid generic parameter inside a declaration.
    Generic(String),
    /// Flexible generic variable for call/variant instantiation.
    Infer(String),
    /// Nominal user type with generic arguments.
    Nominal {
        /// Defining symbol.
        symbol: SymbolId,
        /// Generic argument types.
        args: Vec<TypeId>,
    },
    /// Function-like value.
    Function {
        /// Generic parameter names.
        generics: Vec<String>,
        /// Parameter types.
        params: Vec<TypeId>,
        /// Return type.
        return_type: TypeId,
    },
}

impl View for MirTypeKind {
    type V = TypeKindView;

    open spec fn view(&self) -> TypeKindView {
        match self {
            MirTypeKind::Error => TypeKindView::Error,
            MirTypeKind::Unit => TypeKindView::Unit,
            MirTypeKind::I32 => TypeKindView::I32,
            MirTypeKind::Bool => TypeKindView::Bool,
            MirTypeKind::String => TypeKindView::String,
            MirTypeKind::Generic(name) => TypeKindView::Generic(name@),
            MirTypeKind::Infer(name) => TypeKindView::Infer(name@),
            MirTypeKind::Nominal { symbol, args } => TypeKindView::Nominal {
                symbol: symbol@,
                args: crate::typeck::type_ids(args@),
            },
            MirTypeKind::Function { generics, params, return_type } => TypeKindView::Function {
                generics: string_views(generics@),
                params: crate::typeck::type_ids(params@),
                return_type: return_type@,
            },
        }
    }
}

/// Backend-visible symbol metadata.
#[derive(Debug)]
pub struct MirSymbol {
    /// Symbol id.
    pub id: SymbolId,
    /// Symbol kind.
    pub kind: SymbolKind,
    /// Fully qualified path.
    pub path: Vec<String>,
    /// Optional owning item for top-level items and child symbols.
    pub item: Option<ItemId>,
}

/// The final segment of a path, or the empty text for an empty path.
pub open spec fn last_segment(path: Seq<String>) -> Seq<char> {
    if path.len() == 0 {
        Seq::empty()
    } else {
        path.last()@
    }
}

impl MirSymbol {
    /// Returns the symbol's final path segment.
    pub fn name(&self) -> (r: &str)
        ensures
            r@ == last_segment(self.path@),
    {
        let n = self.path.len();
        if n == 0 {
            proof {
                reveal_strlit("");
            }
            ""
        } else {
            self.path[n - 1].as_str()
        }
    }
}

/// Generic substitution preserved as a backend instantiation entry point.
#[derive(Debug)]
pub struct MirInstantiation {
    /// Source expression span that caused the instantiation.
    pub span: TextRange,
    /// Generic parameter name.
    pub generic: String,
    /// Concrete replacement type.
    pub replacement: TypeId,
}

/// Lowered function body.
#[derive(Debug)]
pub struct MirFunction {
    /// MIR function id.
    pub id: MirFunctionId,
    /// Parent HIR item id.
    pub item: ItemId,
    /// Function symbol for top-level functions, if one exists.
    pub symbol: Option<SymbolId>,
    /// Source file id.
    pub source_id: SourceId,
    /// Function name.
    pub name: String,
    /// Return type.
    pub return_type: Option<TypeId>,
    /// MIR locals in deterministic allocation order.
    pub locals: Vec<MirLocal>,
    /// Basic blocks in deterministic allocation order.
    pub blocks: Vec<BasicBlock>,
    /// Source span.
    pub span: TextRange,
}

/// MIR local declaration.
#[derive(Debug)]
pub struct MirLocal {
    /// Local id.
    pub id: MirLocalId,
    /// Source or generated name.
    pub name: String,
    /// Local kind.
    pub kind: MirLocalKind,
    /// HIR local this MIR local mirrors, if any.
    pub hir_local: Option<LocalId>,
    /// Typed local or temporary type.
    pub ty: Option<TypeId>,
    /// Source span.
    pub span: TextRange,
}

/// MIR local kind.
#[derive(Clone, Copy, Debug, PartialEq, Eq, Structural)]
pub enum MirLocalKind {
    /// Function parameter.
    Param,
    /// `let` binding.
    Let,
    /// Pattern binding.
    Pattern,
    /// Compiler-generated temporary.
    Temp,
}

/// Stable dump string of a MIR local kind.
pub open spec fn mir_local_kind_text(k: MirLocalKind) -> Seq<char> {
    match k {
        MirLocalKind::Param => "param"@,
        MirLocalKind::Let => "let"@,
        MirLocalKind::Pattern => "pattern"@,
        MirLocalKind::Temp => "temp"@,
    }
}

/// The MIR kind of a HIR local kind.
pub open spec fn mir_kind_of(kind: LocalKind) -> MirLocalKind {
    match kind {
        LocalKind::Param => MirLocalKind::Param,
        LocalKind::Let => MirLocalKind::Let,
        LocalKind::Pattern => MirLocalKind::Pattern,
    }
}

impl MirLocalKind {
    /// Returns the stable dump string.
    pub fn as_str(self) -> (r: &'static str)
        ensures
            r@ == mir_local_kind_text(self),
    {
        match self {
            MirLocalKind::Param => "param",
            MirLocalKind::Let => "let",
            MirLocalKind::Pattern => "pattern",
            MirLocalKind::Temp => "temp",
        }
    }

    /// The MIR kind that mirrors a HIR local kind.
    pub fn from_local_kind(kind: LocalKind) -> (r: Self)
        ensures
            r == mir_kind_of(kind),
    {
        match kind {
            LocalKind::Param => MirLocalKind::Param,
            LocalKind::Let => MirLocalKind::Let,
            LocalKind::Pattern => MirLocalKind::Pattern,
        }
    }
}

/// A MIR basic block with straight-line statements and one terminator.
#[derive(Debug)]
pub struct BasicBlock {
    /// Block id.
    pub id: BasicBlockId,
    /// Statements before the terminator.
    pub statements: Vec<MirStatement>,
    /// Explicit control-flow terminator.
    pub terminator: Option<MirTerminator>,
    /// Source span most closely associated with this block.
    pub span: TextRange,
}

/// MIR statement.
#[derive(Debug)]
pub enum MirStatement {
    /// Assign an rvalue to a local place.
    Assign {
        /// Destination place.
        place: MirPlace,
        /// Source value.
        value: MirRvalue,
        /// Source span.
        span: TextRange,
    },
}

/// MIR terminator.
#[derive(Debug)]
pub enum MirTerminator {
    /// Jump to another block.
    Goto {
        /// Target block.
        target: BasicBlockId,
        /// Source span.
        span: TextRange,
    },
    /// Return from the current function.
    Return {
        /// Optional returned operand.
        value: Option<MirOperand>,
        /// Source span.
        span: TextRange,
    },
    /// Branch on a bool condition.
    Branch {
        /// Bool condition.
        condition: MirOperand,
        /// Target when true.
        then_target: BasicBlockId,
        /// Target when false.
        else_target: BasicBlockId,
        /// Source span.
        span: TextRange,
    },
    /// Branch on literal or enum-variant patterns.
    Match {
        /// Matched value.
        scrutinee: MirOperand,
        /// Ordered branch targets.
        targets: Vec<MirMatchTarget>,
        /// Source span.
        span: TextRange,
    },
}

/// One match-like branch target.
#[derive(Debug)]
pub struct MirMatchTarget {
    /// Pattern tested by this target.
    pub pattern: MirBranchPattern,
    /// Block entered when the pattern matches.
    pub target: BasicBlockId,
}

/// MIR branch pattern.
#[derive(Debug)]
pub enum MirBranchPattern {
    /// Match all remaining values.
    Wildcard,
    /// Match one literal dump string.
    Literal(String),
    /// Match one enum variant.
    Variant(SymbolId),
}

/// MIR place.
#[derive(Clone, Copy, Debug, PartialEq, Eq, Structural)]
pub enum MirPlace {
    /// Local place.
    Local(MirLocalId),
}

/// MIR operand.
#[derive(Debug)]
pub enum MirOperand {
    /// Copy a place.
    Copy(MirPlace),
    /// Constant value.
    Const(MirConstant),
    /// Function item.
    Function(SymbolId),
    /// Enum variant value or constructor.
    Variant(SymbolId),
}

/// MIR constant.
#[derive(Debug)]
pub enum MirConstant {
    /// Unit value.
    Unit,
    /// Literal text as recorded in HIR.
    Literal(String),
}

/// MIR rvalue.
#[derive(Debug)]
pub enum MirRvalue {
    /// Use an operand directly.
    Use(MirOperand),
    /// Function or variant call.
    Call {
        /// Callable operand.
        callee: MirOperand,
        /// Argument operands.
        args: Vec<MirOperand>,
    },
    /// Binary operation.
    Binary {
        /// Operator text.
        op: &'static str,
        /// Left operand.
        left: MirOperand,
        /// Right operand.
        right: MirOperand,
    },
    /// Build an enum variant value.
    AggregateVariant {
        /// Variant symbol.
        variant: SymbolId,
        /// Field operands.
        fields: Vec<MirOperand>,
    },
    /// Project one field from a matched enum variant.
    ProjectVariant {
        /// Source enum value.
        source: MirOperand,
        /// Known variant symbol.
        variant: SymbolId,
        /// Field index.
        field: usize,
    },
}

// ---------------------------------------------------------------------------
// Dump text
// ---------------------------------------------------------------------------

/// Display of a place.
pub open spec fn place_text(p: MirPlace) -> Seq<char> {
    match p {
        MirPlace::Local(l) => "v"@ + decimal(l@ as nat),
    }
}

/// Display of an operand.
pub open spec fn operand_text(op: MirOperand) -> Seq<char> {
    match op {
        MirOperand::Copy(p) => "copy "@ + place_text(p),
        MirOperand::Const(MirConstant::Unit) => "unit"@,
        MirOperand::Const(MirConstant::Literal(t)) => "const("@ + t@ + ")"@,
        MirOperand::Function(s) => "fn("@ + "s"@ + decimal(s@ as nat) + ")"@,
        MirOperand::Variant(s) => "variant("@ + "s"@ + decimal(s@ as nat) + ")"@,
    }
}

/// Displays of a list of operands.
pub open spec fn operand_texts(ops: Seq<MirOperand>) -> Seq<Seq<char>> {
    ops.map_values(|o: MirOperand| operand_text(o))
}

/// Display of an rvalue.
pub open spec fn rvalue_text(rv: MirRvalue) -> Seq<char> {
    match rv {
        MirRvalue::Use(o) => operand_text(o),
        MirRvalue::Call { callee, args } => "call "@ + operand_text(callee) + "("@ + join(
            operand_texts(args@),
            ", "@,
        ) + ")"@,
        MirRvalue::Binary { op, left, right } => "binary "@ + op@ + " "@ + operand_text(left)
            + ", "@ + operand_text(right),
        MirRvalue::AggregateVariant { variant, fields } => "aggregate variant("@ + "s"@ + decimal(
            variant@ as nat,
        ) + ")("@ + join(operand_texts(fields@), ", "@) + ")"@,
        MirRvalue::ProjectVariant { source, variant, field } => "project "@ + operand_text(source)
            + " as variant("@ + "s"@ + decimal(variant@ as nat) + ")."@ + decimal(field as nat),
    }
}

/// Display of a branch pattern.
pub open spec fn branch_pattern_text(p: MirBranchPattern) -> Seq<char> {
    match p {
        MirBranchPattern::Wildcard => "_"@,
        MirBranchPattern::Literal(t) => "literal("@ + t@ + ")"@,
        MirBranchPattern::Variant(s) => "variant("@ + "s"@ + decimal(s@ as nat) + ")"@,
    }
}

/// Display of a match target.
pub open spec fn match_target_text(t: MirMatchTarget) -> Seq<char> {
    branch_pattern_text(t.pattern) + " -> "@ + "bb"@ + decimal(t.target@ as nat)
}

/// Display of a terminator.
pub open spec fn terminator_text(t: MirTerminator) -> Seq<char> {
    match t {
        MirTerminator::Goto { target, span } => "goto "@ + "bb"@ + decimal(target@ as nat) + " "@
            + range_text(span),
        MirTerminator::Return { value, span } => "return "@ + (match value {
            Some(v) => operand_text(v),
            None => "_"@,
        }) + " "@ + range_text(span),
        MirTerminator::Branch { condition, then_target, else_target, span } => "branch "@
            + operand_text(condition) + " ? "@ + "bb"@ + decimal(then_target@ as nat) + " : "@
            + "bb"@ + decimal(else_target@ as nat) + " "@ + range_text(span),
        MirTerminator::Match { scrutinee, targets, span } => "match "@ + operand_text(scrutinee)
            + " ["@ + join(targets@.map_values(|t: MirMatchTarget| match_target_text(t)), ", "@)
            + "] "@ + range_text(span),
    }
}

/// Display of a statement.
pub open spec fn statement_text(st: MirStatement) -> Seq<char> {
    match st {
        MirStatement::Assign { place, value, span } => place_text(place) + " = "@ + rvalue_text(
            value,
        ) + " "@ + range_text(span),
    }
}

/// Display of an optional type.
pub open spec fn opt_type_text(t: Option<TypeId>) -> Seq<char> {
    match t {
        Some(t) => "t"@ + decimal(t@ as nat),
        None => "_"@,
    }
}

/// Dump lines of a block.
pub open spec fn block_lines(b: BasicBlock) -> Seq<Seq<char>> {
    seq!["    "@ + "bb"@ + decimal(b.id@ as nat) + " "@ + range_text(b.span)] + b.statements@.map_values(
        |st: MirStatement| "      "@ + statement_text(st),
    ) + seq![
        "      "@ + match b.terminator {
            Some(t) => terminator_text(t),
            None => "unreachable"@,
        },
    ]
}

/// Dump line of a local.
pub open spec fn mir_local_line(l: MirLocal) -> Seq<char> {
    "      "@ + "v"@ + decimal(l.id@ as nat) + " "@ + mir_local_kind_text(l.kind) + " "@ + l.name@
        + " type="@ + opt_type_text(l.ty) + " hir="@ + (match l.hir_local {
        Some(h) => "l"@ + decimal(h@ as nat),
        None => "_"@,
    }) + " "@ + range_text(l.span)
}

/// Header line of a function.
pub open spec fn function_header(f: MirFunction) -> Seq<char> {
    "  "@ + "Function "@ + "f"@ + decimal(f.id@ as nat) + " item="@ + "i"@ + decimal(f.item@ as nat)
        + " symbol="@ + (match f.symbol {
        Some(s) => "s"@ + decimal(s@ as nat),
        None => "_"@,
    }) + " "@ + f.name@ + " source="@ + decimal(f.source_id@ as nat) + " return="@
        + opt_type_text(f.return_type) + " "@ + range_text(f.span)
}

/// Dump lines of a function.
pub open spec fn function_lines(f: MirFunction) -> Seq<Seq<char>> {
    seq![function_header(f)] + (if f.locals@.len() == 0 {
        Seq::<Seq<char>>::empty()
    } else {
        seq!["    Locals"@] + f.locals@.map_values(|l: MirLocal| mir_local_line(l))
    }) + lines_of(f.blocks@, |b: BasicBlock| block_lines(b))
}

/// Dump line of an instantiation.
pub open spec fn instantiation_line(i: MirInstantiation) -> Seq<char> {
    "    "@ + range_text(i.span) + " "@ + i.generic@ + "="@ + "t"@ + decimal(i.replacement@ as nat)
}

/// Dump lines of a package.
pub open spec fn mir_package_lines(p: MirPackage) -> Seq<Seq<char>> {
    seq!["MIR"@] + (if p.instantiations@.len() == 0 {
        Seq::<Seq<char>>::empty()
    } else {
        seq!["  Instantiations"@] + p.instantiations@.map_values(
            |i: MirInstantiation| instantiation_line(i),
        )
    }) + lines_of(p.functions@, |f: MirFunction| function_lines(f))
}

/// Stable dump of a package.
pub open spec fn mir_package_dump(p: MirPackage) -> Seq<char> {
    join(mir_package_lines(p), "\n"@)
}

fn place_string(p: MirPlace) -> (r: String)
    ensures
        r@ == place_text(p),
{
    match p {
        MirPlace::Local(l) => l.dump_text(),
    }
}

fn operand_string(op: &MirOperand) -> (r: String)
    ensures
        r@ == operand_text(*op),
{
    match op {
        MirOperand::Copy(p) => {
            let mut s = owned("copy ");
            let t = place_string(*p);
            s.append(t.as_str());
            s
        },
        MirOperand::Const(MirConstant::Unit) => owned("unit"),
        MirOperand::Const(MirConstant::Literal(t)) => {
            let mut s = owned("const(");
            s.append(t.as_str());
            s.append(")");
            s
        },
        MirOperand::Function(sym) => {
            let mut s = owned("fn(");
            let t = sym.dump_text();
            s.append(t.as_str());
            s.append(")");
            s
        },
        MirOperand::Variant(sym) => {
            let mut s = owned("variant(");
            let t = sym.dump_text();
            s.append(t.as_str());
            s.append(")");
            s
        },
    }
}

fn push_operand_list(out: &mut String, ops: &Vec<MirOperand>)
    ensures
        final(out)@ == old(out)@ + join(operand_texts(ops@), ", "@),
{
    let mut parts: Vec<String> = Vec::new();
    let mut i: usize = 0;
    while i < ops.len()
        invariant
            i <= ops@.len(),
            string_views(parts@) == operand_texts(ops@).take(i as int),
        decreases ops@.len() - i,
    {
        let ghost before = parts@;
        let part = operand_string(&ops[i]);
        parts.push(part);
        proof {
            assert(string_views(parts@) =~= string_views(before).push(part@));
            assert(operand_texts(ops@).take(i + 1) =~= operand_texts(ops@).take(i as int).push(
                operand_text(ops@[i as int]),
            ));
        }
        i = i + 1;
    }
    proof {
        assert(operand_texts(ops@).take(ops@.len() as int) =~= operand_texts(ops@));
    }
    push_join(out, &parts, ", ");
}

fn rvalue_string(rv: &MirRvalue) -> (r: String)
    ensures
        r@ == rvalue_text(*rv),
{
    match rv {
        MirRvalue::Use(o) => operand_string(o),
        MirRvalue::Call { callee, args } => {
            let mut s = owned("call ");
            let c = operand_string(callee);
            s.append(c.as_str());
            s.append("(");
            push_operand_list(&mut s, args);
            s.append(")");
            s
        },
        MirRvalue::Binary { op, left, right } => {
            let mut s = owned("binary ");
            s.append(op);
            s.append(" ");
            let l = operand_string(left);
            s.append(l.as_str());
            s.append(", ");
            let r = operand_string(right);
            s.append(r.as_str());
            s
        },
        MirRvalue::AggregateVariant { variant, fields } => {
            let mut s = owned("aggregate variant(");
            let v = variant.dump_text();
            s.append(v.as_str());
            s.append(")(");
            push_operand_list(&mut s, fields);
            s.append(")");
            s
        },
        MirRvalue::ProjectVariant { source, variant, field } => {
            let mut s = owned("project ");
            let src = operand_string(source);
            s.append(src.as_str());
            s.append(" as variant(");
            let v = variant.dump_text();
            s.append(v.as_str());
            s.append(").");
            push_decimal(&mut s, *field);
            s
        },
    }
}

fn branch_pattern_string(p: &MirBranchPattern) -> (r: String)
    ensures
        r@ == branch_pattern_text(*p),
{
    match p {
        MirBranchPattern::Wildcard => owned("_"),
        MirBranchPattern::Literal(t) => {
            let mut s = owned("literal(");
            s.append(t.as_str());
            s.append(")");
            s
        },
        MirBranchPattern::Variant(sym) => {
            let mut s = owned("variant(");
            let t = sym.dump_text();
            s.append(t.as_str());
            s.append(")");
            s
        },
    }
}

fn terminator_string(t: &MirTerminator) -> (r: String)
    ensures
        r@ == terminator_text(*t),
{
    match t {
        MirTerminator::Goto { target, span } => {
            let mut s = owned("goto ");
            let b = target.dump_text();
            s.append(b.as_str());
            s.append(" ");
            crate::ast::push_range(&mut s, *span);
            s
        },
        MirTerminator::Return { value, span } => {
            let mut s = owned("return ");
            match value {
                Some(v) => {
                    let o = operand_string(v);
                    s.append(o.as_str());
                },
                None => {
                    s.append("_");
                },
            }
            s.append(" ");
            crate::ast::push_range(&mut s, *span);
            s
        },
        MirTerminator::Branch { condition, then_target, else_target, span } => {
            let mut s = owned("branch ");
            let c = operand_string(condition);
            s.append(c.as_str());
            s.append(" ? ");
            let a = then_target.dump_text();
            s.append(a.as_str());
            s.append(" : ");
            let b = else_target.dump_text();
            s.append(b.as_str());
            s.append(" ");
            crate::ast::push_range(&mut s, *span);
            s
        },
        MirTerminator::Match { scrutinee, targets, span } => {
            let mut s = owned("match ");
            let c = operand_string(scrutinee);
            s.append(c.as_str());
            s.append(" [");
            let ghost texts = targets@.map_values(|t: MirMatchTarget| match_target_text(t));
            let mut parts: Vec<String> = Vec::new();
            let mut i: usize = 0;
            while i < targets.len()
                invariant
                    i <= targets@.len(),
                    texts == targets@.map_values(|t: MirMatchTarget| match_target_text(t)),
                    string_views(parts@) == texts.take(i as int),
                decreases targets@.len() - i,
            {
                let ghost before = parts@;
                let mut part = branch_pattern_string(&targets[i].pattern);
                part.append(" -> ");
                let b = targets[i].target.dump_text();
                part.append(b.as_str());
                proof {
                    assert(part@ =~= match_target_text(targets@[i as int]));
                }
                parts.push(part);
                proof {
                    assert(string_views(parts@) =~= string_views(before).push(part@));
                    assert(texts.take(i + 1) =~= texts.take(i as int).push(texts[i as int]));
                }
                i = i + 1;
            }
            proof {
                assert(texts.take(targets@.len() as int) =~= texts);
            }
            push_join(&mut s, &parts, ", ");
            s.append("] ");
            crate::ast::push_range(&mut s, *span);
            s
        },
    }
}

fn statement_string(st: &MirStatement) -> (r: String)
    ensures
        r@ == statement_text(*st),
{
    match st {
        MirStatement::Assign { place, value, span } => {
            let mut s = place_string(*place);
            s.append(" = ");
            let v = rvalue_string(value);
            s.append(v.as_str());
            s.append(" ");
            crate::ast::push_range(&mut s, *span);
            s
        },
    }
}

fn opt_type_string(t: Option<TypeId>) -> (r: String)
    ensures
        r@ == opt_type_text(t),
{
    match t {
        Some(t) => t.dump_text(),
        None => owned("_"),
    }
}

fn dump_block(lines: &mut Vec<String>, b: &BasicBlock)
    ensures
        string_views(final(lines)@) == string_views(old(lines)@) + block_lines(*b),
{
    let ghost base = string_views(lines@);
    let mut head = owned("    ");
    let id = b.id.dump_text();
    head.append(id.as_str());
    head.append(" ");
    crate::ast::push_range(&mut head, b.span);
    let ghost head_text = head@;
    proof {
        assert(head_text =~= "    "@ + "bb"@ + decimal(b.id@ as nat) + " "@ + range_text(b.span));
    }
    emit(lines, head);
    let ghost mid = string_views(lines@);
    let ghost sl = b.statements@.map_values(|st: MirStatement| "      "@ + statement_text(st));
    let mut i: usize = 0;
    proof {
        assert(mid + sl.take(0) =~= mid);
    }
    while i < b.statements.len()
        invariant
            i <= b.statements@.len(),
            sl == b.statements@.map_values(|st: MirStatement| "      "@ + statement_text(st)),
            string_views(lines@) == mid + sl.take(i as int),
        decreases b.statements@.len() - i,
    {
        let mut l = owned("      ");
        let t = statement_string(&b.statements[i]);
        l.append(t.as_str());
        emit(lines, l);
        proof {
            assert(mid + sl.take(i + 1) =~= mid + sl.take(i as int) + seq![sl[i as int]]);
        }
        i = i + 1;
    }
    proof {
        assert(sl.take(b.statements@.len() as int) =~= sl);
    }
    let mut last = owned("      ");
    match &b.terminator {
        Some(t) => {
            let text = terminator_string(t);
            last.append(text.as_str());
        },
        None => {
            last.append("unreachable");
        },
    }
    let ghost last_text = last@;
    proof {
        assert(last_text =~= "      "@ + match b.terminator {
            Some(t) => terminator_text(t),
            None => "unreachable"@,
        });
    }
    emit(lines, last);
    proof {
        assert(block_lines(*b) =~= seq![head_text] + sl + seq![last_text]);
        assert(string_views(lines@) =~= base + block_lines(*b));
    }
}

fn dump_function(lines: &mut Vec<String>, f: &MirFunction)
    ensures
        string_views(final(lines)@) == string_views(old(lines)@) + function_lines(*f),
{
    let ghost base = string_views(lines@);
    let mut head = owned("  ");
    head.append("Function ");
    let id = f.id.dump_text();
    head.append(id.as_str());
    head.append(" item=");
    let item = f.item.dump_text();
    head.append(item.as_str());
    head.append(" symbol=");
    match f.symbol {
        Some(s) => {
            let t = s.dump_text();
            head.append(t.as_str());
        },
        None => {
            head.append("_");
        },
    }
    head.append(" ");
    head.append(f.name.as_str());
    head.append(" source=");
    push_decimal(&mut head, f.source_id.get());
    head.append(" return=");
    let rt = opt_type_string(f.return_type);
    head.append(rt.as_str());
    head.append(" ");
    crate::ast::push_range(&mut head, f.span);
    proof {
        assert(head@ =~= function_header(*f));
    }
    emit(lines, head);
    let ghost after_head = string_views(lines@);
    if f.locals.len() > 0 {
        emit(lines, owned("    Locals"));
    }
    let ghost mid = string_views(lines@);
    let ghost ll = f.locals@.map_values(|l: MirLocal| mir_local_line(l));
    let mut i: usize = 0;
    proof {
        assert(mid + ll.take(0) =~= mid);
    }
    while i < f.locals.len()
        invariant
            i <= f.locals@.len(),
            ll == f.locals@.map_values(|l: MirLocal| mir_local_line(l)),
            string_views(lines@) == mid + ll.take(i as int),
        decreases f.locals@.len() - i,
    {
        let local = &f.locals[i];
        let mut l = owned("      ");
        let id = local.id.dump_text();
        l.append(id.as_str());
        l.append(" ");
        l.append(local.kind.as_str());
        l.append(" ");
        l.append(local.name.as_str());
        l.append(" type=");
        let t = opt_type_string(local.ty);
        l.append(t.as_str());
        l.append(" hir=");
        match local.hir_local {
            Some(h) => {
                let ht = h.dump_text();
                l.append(ht.as_str());
            },
            None => {
                l.append("_");
            },
        }
        l.append(" ");
        crate::ast::push_range(&mut l, local.span);
        proof {
            assert(l@ =~= mir_local_line(*local));
        }
        emit(lines, l);
        proof {
            assert(mid + ll.take(i + 1) =~= mid + ll.take(i as int) + seq![ll[i as int]]);
        }
        i = i + 1;
    }
    proof {
        assert(ll.take(f.locals@.len() as int) =~= ll);
    }
    let ghost mid2 = string_views(lines@);
    let ghost g = |b: BasicBlock| block_lines(b);
    let mut j: usize = 0;
    proof {
        assert(mid2 + lines_of(f.blocks@.take(0), g) =~= mid2);
    }
    while j < f.blocks.len()
        invariant
            j <= f.blocks@.len(),
            g == (|b: BasicBlock| block_lines(b)),
            string_views(lines@) == mid2 + lines_of(f.blocks@.take(j as int), g),
        decreases f.blocks@.len() - j,
    {
        dump_block(lines, &f.blocks[j]);
        proof {
            crate::ast::lemma_lines_of_step(f.blocks@, g, j as int);
            assert(string_views(lines@) =~= mid2 + lines_of(f.blocks@.take(j + 1), g));
        }
        j = j + 1;
    }
    proof {
        crate::ast::lemma_lines_of_all(f.blocks@, g);
        assert(string_views(lines@) =~= base + function_lines(*f));
    }
}

impl MirPackage {
    /// Renders a stable dump for snapshot-style tests and handoff docs.
    pub fn dump(&self) -> (r: String)
        ensures
            r@ == mir_package_dump(*self),
    {
        let mut lines: Vec<String> = Vec::new();
        emit(&mut lines, owned("MIR"));
        if self.instantiations.len() > 0 {
            emit(&mut lines, owned("  Instantiations"));
        }
        let ghost mid = string_views(lines@);
        let ghost il = self.instantiations@.map_values(|i: MirInstantiation| instantiation_line(i));
        let mut i: usize = 0;
        proof {
            assert(mid + il.take(0) =~= mid);
        }
        while i < self.instantiations.len()
            invariant
                i <= self.instantiations@.len(),
                il == self.instantiations@.map_values(|i: MirInstantiation| instantiation_line(i)),
                string_views(lines@) == mid + il.take(i as int),
            decreases self.instantiations@.len() - i,
        {
            let inst = &self.instantiations[i];
            let mut l = owned("    ");
            crate::ast::push_range(&mut l, inst.span);
            l.append(" ");
            l.append(inst.generic.as_str());
            l.append("=");
            let t = inst.replacement.dump_text();
            l.append(t.as_str());
            proof {
                assert(l@ =~= instantiation_line(*inst));
            }
            emit(&mut lines, l);
            proof {
                assert(mid + il.take(i + 1) =~= mid + il.take(i as int) + seq![il[i as int]]);
            }
            i = i + 1;
        }
        proof {
            assert(il.take(self.instantiations@.len() as int) =~= il);
        }
        let ghost mid2 = string_views(lines@);
        let ghost g = |f: MirFunction| function_lines(f);
        let mut j: usize = 0;
        proof {
            assert(mid2 + lines_of(self.functions@.take(0), g) =~= mid2);
        }
        while j < self.functions.len()
            invariant
                j <= self.functions@.len(),
                g == (|f: MirFunction| function_lines(f)),
                string_views(lines@) == mid2 + lines_of(self.functions@.take(j as int), g),
            decreases self.functions@.len() - j,
        {
            dump_function(&mut lines, &self.functions[j]);
            proof {
                crate::ast::lemma_lines_of_step(self.functions@, g, j as int);
                assert(string_views(lines@) =~= mid2 + lines_of(self.functions@.take(j + 1), g));
            }
            j = j + 1;
        }
        proof {
            crate::ast::lemma_lines_of_all(self.functions@, g);
            assert(string_views(lines@) =~= mir_package_lines(*self));
        }
        let mut text = String::new();
        push_join(&mut text, &lines, "\n");
        proof {
            assert(text@ =~= mir_package_dump(*self));
        }
        text
    }
}

// ---------------------------------------------------------------------------
// Well-formed control flow
// ---------------------------------------------------------------------------

/// An operand refers only to locals below `nl`.
pub open spec fn operand_ok(op: MirOperand, nl: int) -> bool {
    match op {
        MirOperand::Copy(MirPlace::Local(l)) => l@ < nl,
        _ => true,
    }
}

/// Operands refer only to locals below `nl`.
pub open spec fn operands_ok(ops: Seq<MirOperand>, nl: int) -> bool {
    forall|i: int| 0 <= i < ops.len() ==> operand_ok(#[trigger] ops[i], nl)
}

/// An rvalue refers only to locals below `nl`.
pub open spec fn rvalue_ok(rv: MirRvalue, nl: int) -> bool {
    match rv {
        MirRvalue::Use(o) => operand_ok(o, nl),
        MirRvalue::Call { callee, args } => operand_ok(callee, nl) && operands_ok(args@, nl),
        MirRvalue::Binary { left, right, .. } => operand_ok(left, nl) && operand_ok(right, nl),
        MirRvalue::AggregateVariant { fields, .. } => operands_ok(fields@, nl),
        MirRvalue::ProjectVariant { source, .. } => operand_ok(source, nl),
    }
}

/// A statement writes and reads only locals below `nl`.
pub open spec fn statement_ok(st: MirStatement, nl: int) -> bool {
    match st {
        MirStatement::Assign { place: MirPlace::Local(l), value, .. } => l@ < nl && rvalue_ok(
            value,
            nl,
        ),
    }
}

/// A terminator reads only locals below `nl` and jumps only to blocks below `nb`.
pub open spec fn terminator_ok(t: MirTerminator, nl: int, nb: int) -> bool {
    match t {
        MirTerminator::Goto { target, .. } => target@ < nb,
        MirTerminator::Return { value, .. } => match value {
            Some(v) => operand_ok(v, nl),
            None => true,
        },
        MirTerminator::Branch { condition, then_target, else_target, .. } => operand_ok(
            condition,
            nl,
        ) && then_target@ < nb && else_target@ < nb,
        MirTerminator::Match { scrutinee, targets, .. } => operand_ok(scrutinee, nl) && forall|i: int|
            0 <= i < targets@.len() ==> (#[trigger] targets@[i]).target@ < nb,
    }
}

/// A block refers only to locals below `nl` and blocks below `nb`.
pub open spec fn block_ok(b: BasicBlock, nl: int, nb: int) -> bool {
    &&& forall|i: int| 0 <= i < b.statements@.len() ==> statement_ok(#[trigger] b.statements@[i], nl)
    &&& match b.terminator {
        Some(t) => terminator_ok(t, nl, nb),
        None => true,
    }
}

/// A function whose locals and blocks are numbered by position, with an entry block, whose
/// statements and terminators refer only to its own locals and blocks.
pub open spec fn mir_function_wf(f: MirFunction) -> bool {
    let nl = f.locals@.len() as int;
    let nb = f.blocks@.len() as int;
    &&& nb > 0
    &&& forall|i: int| 0 <= i < nl ==> (#[trigger] f.locals@[i]).id@ == i
    &&& forall|i: int|
        0 <= i < nb ==> (#[trigger] f.blocks@[i]).id@ == i && block_ok(f.blocks@[i], nl, nb)
}

/// Functions numbered by position, each well formed.
pub open spec fn mir_functions_wf(fs: Seq<MirFunction>) -> bool {
    forall|i: int| 0 <= i < fs.len() ==> (#[trigger] fs[i]).id@ == i && mir_function_wf(fs[i])
}

/// A package whose functions are numbered by position and each well formed.
pub open spec fn mir_package_wf(p: MirPackage) -> bool {
    mir_functions_wf(p.functions@)
}

proof fn lemma_operands_mono(ops: Seq<MirOperand>, nl: int, nl2: int)
    requires
        operands_ok(ops, nl),
        nl <= nl2,
    ensures
        operands_ok(ops, nl2),
{
    assert forall|i: int| 0 <= i < ops.len() implies operand_ok(#[trigger] ops[i], nl2) by {
        assert(operand_ok(ops[i], nl));
    }
}

proof fn lemma_block_mono(b: BasicBlock, nl: int, nb: int, nl2: int, nb2: int)
    requires
        block_ok(b, nl, nb),
        nl <= nl2,
        nb <= nb2,
    ensures
        block_ok(b, nl2, nb2),
{
    assert forall|i: int| 0 <= i < b.statements@.len() implies statement_ok(
        #[trigger] b.statements@[i],
        nl2,
    ) by {
        assert(statement_ok(b.statements@[i], nl));
        match b.statements@[i] {
            MirStatement::Assign { value, .. } => match value {
                MirRvalue::Call { args, .. } => lemma_operands_mono(args@, nl, nl2),
                MirRvalue::AggregateVariant { fields, .. } => lemma_operands_mono(
                    fields@,
                    nl,
                    nl2,
                ),
                _ => {},
            },
        }
    }
    match b.terminator {
        Some(MirTerminator::Match { targets, .. }) => {
            assert forall|i: int| 0 <= i < targets@.len() implies (
            #[trigger] targets@[i]).target@ < nb2 by {
                assert(targets@[i].target@ < nb);
            }
        },
        _ => {},
    }
}

proof fn lemma_blocks_mono(blocks: Seq<BasicBlock>, nl: int, nb: int, nl2: int, nb2: int)
    requires
        forall|i: int| 0 <= i < blocks.len() ==> block_ok(#[trigger] blocks[i], nl, nb),
        nl <= nl2,
        nb <= nb2,
    ensures
        forall|i: int| 0 <= i < blocks.len() ==> block_ok(#[trigger] blocks[i], nl2, nb2),
{
    assert forall|i: int| 0 <= i < blocks.len() implies block_ok(#[trigger] blocks[i], nl2, nb2) by {
        lemma_block_mono(blocks[i], nl, nb, nl2, nb2);
    }
}

/// The `(item, symbol, name)` keys of the functions lowered from one item: a function item
/// gives one, an impl block one per method, other items none.
pub open spec fn item_lowered_keys(it: HirItem) -> Seq<(usize, Option<usize>, Seq<char>)> {
    match it.kind {
        HirItemKind::Function(f) => seq![(it.id@, Some(it.symbol@), f.name@)],
        HirItemKind::Impl(i) => i.methods@.map_values(
            |m: HirFunction| (it.id@, None::<usize>, m.name@),
        ),
        _ => Seq::empty(),
    }
}

/// Lowered-function keys of a sequence of items.
pub open spec fn items_lowered_keys(items: Seq<HirItem>) -> Seq<(usize, Option<usize>, Seq<char>)>
    decreases items.len(),
{
    if items.len() == 0 {
        Seq::empty()
    } else {
        items_lowered_keys(items.drop_last()) + item_lowered_keys(items.last())
    }
}

/// Lowered-function keys of a sequence of modules.
pub open spec fn modules_lowered_keys(ms: Seq<HirModule>) -> Seq<(usize, Option<usize>, Seq<char>)>
    decreases ms.len(),
{
    if ms.len() == 0 {
        Seq::empty()
    } else {
        modules_lowered_keys(ms.drop_last()) + items_lowered_keys(ms.last().items@)
    }
}

/// The HIR functions an item lowers to: the function itself, or the methods of an impl.
pub open spec fn item_lowered_fns(it: HirItem) -> Seq<HirFunction> {
    match it.kind {
        HirItemKind::Function(f) => seq![f],
        HirItemKind::Impl(i) => i.methods@,
        _ => Seq::empty(),
    }
}

/// The HIR functions a sequence of items lowers to.
pub open spec fn items_lowered_fns(items: Seq<HirItem>) -> Seq<HirFunction>
    decreases items.len(),
{
    if items.len() == 0 {
        Seq::empty()
    } else {
        items_lowered_fns(items.drop_last()) + item_lowered_fns(items.last())
    }
}

/// The HIR functions a sequence of modules lowers to.
pub open spec fn modules_lowered_fns(ms: Seq<HirModule>) -> Seq<HirFunction>
    decreases ms.len(),
{
    if ms.len() == 0 {
        Seq::empty()
    } else {
        modules_lowered_fns(ms.drop_last()) + items_lowered_fns(ms.last().items@)
    }
}

/// The MIR locals of a function are its HIR locals in order, with their names and kinds, followed
/// by compiler temporaries.
pub open spec fn locals_mirror(mir: Seq<MirLocal>, hir: Seq<HirLocal>) -> bool {
    &&& mir.len() >= hir.len()
    &&& forall|i: int|
        0 <= i < hir.len() ==> {
            &&& (#[trigger] mir[i]).kind == mir_kind_of(hir[i].kind)
            &&& mir[i].hir_local == Some(hir[i].id)
            &&& mir[i].name@ == hir[i].name@
        }
    &&& forall|i: int|
        hir.len() <= i < mir.len() ==> (#[trigger] mir[i]).kind == MirLocalKind::Temp
            && mir[i].hir_local is None
}

/// Each MIR function keeps the locals of the HIR function it lowers.
pub open spec fn locals_kept(fs: Seq<MirFunction>, hs: Seq<HirFunction>) -> bool {
    &&& fs.len() == hs.len()
    &&& forall|i: int| 0 <= i < fs.len() ==> locals_mirror(#[trigger] fs[i].locals@, hs[i].locals@)
}

/// The `(item, symbol, name)` key of a MIR function.
pub open spec fn function_key(f: MirFunction) -> (usize, Option<usize>, Seq<char>) {
    (
        f.item@,
        match f.symbol {
            Some(s) => Some(s@),
            None => None,
        },
        f.name@,
    )
}

/// The MIR copy of the package's metadata: types, symbols and instantiations, entry by entry.
pub open spec fn mir_metadata_copied(p: MirPackage, typed: TypeCheckResult) -> bool {
    let types = typed.type_table.types@;
    let symbols = typed.package.symbols@;
    let subst = typed.type_table.substitutions@;
    &&& p.types@.len() == types.len()
    &&& forall|i: int| 0 <= i < types.len() ==> (#[trigger] p.types@[i])@ == types[i]@
    &&& p.symbols@.len() == symbols.len()
    &&& forall|i: int|
        0 <= i < symbols.len() ==> {
            &&& (#[trigger] p.symbols@[i]).id == symbols[i].id
            &&& p.symbols@[i].kind == symbols[i].kind
            &&& string_views(p.symbols@[i].path@) == string_views(symbols[i].path@)
            &&& p.symbols@[i].item == symbols[i].item
        }
    &&& p.instantiations@.len() == subst.len()
    &&& forall|i: int|
        0 <= i < subst.len() ==> {
            &&& (#[trigger] p.instantiations@[i]).span == subst[i].span
            &&& p.instantiations@[i].generic@ == subst[i].generic@
            &&& p.instantiations@[i].replacement == subst[i].replacement
        }
}

// ---------------------------------------------------------------------------
// Lowering
// ---------------------------------------------------------------------------

/// Typed HIR to MIR lowering facade.
#[derive(Clone, Copy, Debug, Default, PartialEq, Eq, Structural)]
pub struct MirLowerer;

impl MirLowerer {
    /// Creates a MIR lowerer.
    pub fn new() -> (r: Self) {
        MirLowerer
    }

    /// Lowers a typed package to MIR: one well-formed function per function item and per impl
    /// method, in package order, each keeping the locals of its HIR function before its
    /// temporaries, with the package's metadata copied alongside.
    pub fn lower(&self, typed: &TypeCheckResult) -> (r: MirPackage)
        ensures
            mir_package_wf(r),
            r.functions@.map_values(|f: MirFunction| function_key(f)) == modules_lowered_keys(
                typed.package.modules@,
            ),
            locals_kept(r.functions@, modules_lowered_fns(typed.package.modules@)),
            bodies_lowered(r.functions@, modules_lowered_fns(typed.package.modules@), *typed),
            mir_metadata_copied(r, *typed),
    {
        let package = &typed.package;
        let mut functions: Vec<MirFunction> = Vec::new();
        let mut m: usize = 0;
        proof {
            assert(functions@.map_values(|f: MirFunction| function_key(f)) =~= modules_lowered_keys(
                package.modules@.take(0),
            ));
            assert(modules_lowered_fns(package.modules@.take(0)) =~= Seq::<HirFunction>::empty());
        }
        while m < package.modules.len()
            invariant
                m <= package.modules@.len(),
                package == &typed.package,
                mir_functions_wf(functions@),
                functions@.map_values(|f: MirFunction| function_key(f)) == modules_lowered_keys(
                    package.modules@.take(m as int),
                ),
                locals_kept(functions@, modules_lowered_fns(package.modules@.take(m as int))),
                bodies_lowered(functions@, modules_lowered_fns(package.modules@.take(m as int)), *typed),
            decreases package.modules@.len() - m,
        {
            let module = &package.modules[m];
            let ghost start = functions@.map_values(|f: MirFunction| function_key(f));
            let ghost start_fns = modules_lowered_fns(package.modules@.take(m as int));
            let mut i: usize = 0;
            proof {
                assert(module.items@.take(0) =~= Seq::<HirItem>::empty());
                assert(start + items_lowered_keys(module.items@.take(0)) =~= start);
                assert(start_fns + items_lowered_fns(module.items@.take(0)) =~= start_fns);
            }
            while i < module.items.len()
                invariant
                    i <= module.items@.len(),
                    m < package.modules@.len(),
                    *module == package.modules@[m as int],
                    package == &typed.package,
                    mir_functions_wf(functions@),
                    functions@.map_values(|f: MirFunction| function_key(f)) == start
                        + items_lowered_keys(module.items@.take(i as int)),
                    start_fns == modules_lowered_fns(package.modules@.take(m as int)),
                    locals_kept(functions@, start_fns + items_lowered_fns(module.items@.take(i as int))),
                    bodies_lowered(functions@, start_fns + items_lowered_fns(module.items@.take(i as int)), *typed),
                decreases module.items@.len() - i,
            {
                let item = &module.items[i];
                let ghost before = functions@.map_values(|f: MirFunction| function_key(f));
                let ghost before_fns = start_fns + items_lowered_fns(module.items@.take(i as int));
                let ghost before_functions = functions@;
                match &item.kind {
                    HirItemKind::Function(function) => {
                        let id = MirFunctionId::new(functions.len());
                        let lowerer = FunctionLowerer::new(
                            id,
                            item.id,
                            Some(item.symbol),
                            module.source_id,
                            function,
                            typed,
                        );
                        let f = lowerer.lower();
                        functions.push(f);
                        proof {
                            assert(functions@.map_values(|f: MirFunction| function_key(f))
                                =~= before.push(function_key(f)));
                            assert(item_lowered_keys(*item) =~= seq![function_key(f)]);
                            assert(item_lowered_fns(*item) =~= seq![*function]);
                            assert forall|x: int| 0 <= x < functions@.len() implies locals_mirror(
                                #[trigger] functions@[x].locals@,
                                (before_fns + item_lowered_fns(*item))[x].locals@,
                            ) by {
                                if x < before_functions.len() {
                                    assert(functions@[x] == before_functions[x]);
                                }
                            }
                            assert forall|x: int| 0 <= x < functions@.len() implies function_lowered(
                                #[trigger] functions@[x],
                                (before_fns + item_lowered_fns(*item))[x],
                                *typed,
                            ) by {
                                if x < before_functions.len() {
                                    assert(functions@[x] == before_functions[x]);
                                }
                            }
                        }
                    },
                    HirItemKind::Impl(impl_) => {
                        let mut k: usize = 0;
                        let ghost mkeys = impl_.methods@.map_values(
                            |mm: HirFunction| (item.id@, None::<usize>, mm.name@),
                        );
                        proof {
                            assert(before + mkeys.take(0) =~= before);
                            assert(before_fns + impl_.methods@.take(0) =~= before_fns);
                        }
                        while k < impl_.methods.len()
                            invariant
                                k <= impl_.methods@.len(),
                                mkeys == impl_.methods@.map_values(
                                    |mm: HirFunction| (item.id@, None::<usize>, mm.name@),
                                ),
                                mir_functions_wf(functions@),
                                functions@.map_values(|f: MirFunction| function_key(f)) == before
                                    + mkeys.take(k as int),
                                locals_kept(functions@, before_fns + impl_.methods@.take(k as int)),
                                bodies_lowered(functions@, before_fns + impl_.methods@.take(k as int), *typed),
                            decreases impl_.methods@.len() - k,
                        {
                            let id = MirFunctionId::new(functions.len());
                            let lowerer = FunctionLowerer::new(
                                id,
                                item.id,
                                None,
                                module.source_id,
                                &impl_.methods[k],
                                typed,
                            );
                            let ghost fb = functions@.map_values(|f: MirFunction| function_key(f));
                            let ghost fs_before = functions@;
                            let f = lowerer.lower();
                            functions.push(f);
                            proof {
                                assert(functions@.map_values(|f: MirFunction| function_key(f))
                                    =~= fb.push(function_key(f)));
                                assert(mkeys.take(k + 1) =~= mkeys.take(k as int).push(mkeys[k as int]));
                                assert(before_fns + impl_.methods@.take(k + 1) =~= (before_fns
                                    + impl_.methods@.take(k as int)).push(impl_.methods@[k as int]));
                                assert forall|x: int| 0 <= x < functions@.len() implies locals_mirror(
                                    #[trigger] functions@[x].locals@,
                                    (before_fns + impl_.methods@.take(k + 1))[x].locals@,
                                ) by {
                                    if x < fs_before.len() {
                                        assert(functions@[x] == fs_before[x]);
                                    }
                                }
                                assert forall|x: int| 0 <= x < functions@.len() implies function_lowered(
                                    #[trigger] functions@[x],
                                    (before_fns + impl_.methods@.take(k + 1))[x],
                                    *typed,
                                ) by {
                                    if x < fs_before.len() {
                                        assert(functions@[x] == fs_before[x]);
                                    }
                                }
                            }
                            k = k + 1;
                        }
                        proof {
                            assert(mkeys.take(impl_.methods@.len() as int) =~= mkeys);
                            assert(item_lowered_keys(*item) == mkeys);
                            assert(impl_.methods@.take(impl_.methods@.len() as int) =~= impl_.methods@);
                            assert(item_lowered_fns(*item) == impl_.methods@);
                        }
                    },
                    _ => {
                        proof {
                            assert(item_lowered_keys(*item) =~= Seq::<(usize, Option<usize>, Seq<char>)>::empty());
                            assert(before + item_lowered_keys(*item) =~= before);
                            assert(item_lowered_fns(*item) =~= Seq::<HirFunction>::empty());
                            assert(before_fns + item_lowered_fns(*item) =~= before_fns);
                        }
                    },
                }
                proof {
                    assert(module.items@.take(i + 1).drop_last() =~= module.items@.take(i as int));
                    assert(functions@.map_values(|f: MirFunction| function_key(f)) =~= start
                        + items_lowered_keys(module.items@.take(i + 1)));
                    assert(start_fns + items_lowered_fns(module.items@.take(i + 1)) =~= before_fns
                        + item_lowered_fns(*item));
                }
                i = i + 1;
            }
            proof {
                assert(module.items@.take(module.items@.len() as int) =~= module.items@);
                assert(package.modules@.take(m + 1).drop_last() =~= package.modules@.take(m as int));
            }
            m = m + 1;
        }
        proof {
            assert(package.modules@.take(package.modules@.len() as int) =~= package.modules@);
        }
        let types = copy_type_kinds(&typed.type_table.types);
        let symbols = copy_symbols(&package.symbols);
        let instantiations = copy_instantiations(&typed.type_table.substitutions);
        MirPackage { functions, types, symbols, instantiations }
    }
}

/// Lowers a typed package to MIR.
pub fn lower_package(typed: &TypeCheckResult) -> (r: MirPackage)
    ensures
        mir_package_wf(r),
        r.functions@.map_values(|f: MirFunction| function_key(f)) == modules_lowered_keys(
            typed.package.modules@,
        ),
        locals_kept(r.functions@, modules_lowered_fns(typed.package.modules@)),
        bodies_lowered(r.functions@, modules_lowered_fns(typed.package.modules@), *typed),
        mir_metadata_copied(r, *typed),
{
    MirLowerer::new().lower(typed)
}

/// The backend copy of a type shape.
pub fn mir_type_kind(kind: &TypeKind) -> (r: MirTypeKind)
    ensures
        r@ == kind@,
{
    match kind {
        TypeKind::Error => MirTypeKind::Error,
        TypeKind::Unit => MirTypeKind::Unit,
        TypeKind::I32 => MirTypeKind::I32,
        TypeKind::Bool => MirTypeKind::Bool,
        TypeKind::String => MirTypeKind::String,
        TypeKind::Generic(name) => MirTypeKind::Generic(name.clone()),
        TypeKind::Infer(name) => MirTypeKind::Infer(name.clone()),
        TypeKind::Nominal { symbol, args } => MirTypeKind::Nominal {
            symbol: *symbol,
            args: copy_type_ids(args),
        },
        TypeKind::Function { generics, params, return_type } => MirTypeKind::Function {
            generics: copy_strings(generics),
            params: copy_type_ids(params),
            return_type: *return_type,
        },
    }
}

fn copy_type_ids(v: &Vec<TypeId>) -> (r: Vec<TypeId>)
    ensures
        r@ == v@,
{
    let mut out: Vec<TypeId> = Vec::new();
    let mut i: usize = 0;
    while i < v.len()
        invariant
            i <= v@.len(),
            out@ == v@.take(i as int),
        decreases v@.len() - i,
    {
        out.push(v[i]);
        proof {
            assert(v@.take(i + 1) =~= v@.take(i as int).push(v@[i as int]));
        }
        i = i + 1;
    }
    proof {
        assert(v@.take(v@.len() as int) =~= v@);
    }
    out
}

fn copy_type_kinds(types: &Vec<TypeKind>) -> (r: Vec<MirTypeKind>)
    ensures
        r@.len() == types@.len(),
        forall|i: int| 0 <= i < types@.len() ==> (#[trigger] r@[i])@ == types@[i]@,
{
    let mut out: Vec<MirTypeKind> = Vec::new();
    let mut i: usize = 0;
    while i < types.len()
        invariant
            i <= types@.len(),
            out@.len() == i,
            forall|k: int| 0 <= k < i ==> (#[trigger] out@[k])@ == types@[k]@,
        decreases types@.len() - i,
    {
        out.push(mir_type_kind(&types[i]));
        i = i + 1;
    }
    out
}

fn copy_symbols(symbols: &Vec<Symbol>) -> (r: Vec<MirSymbol>)
    ensures
        r@.len() == symbols@.len(),
        forall|i: int|
            0 <= i < symbols@.len() ==> {
                &&& (#[trigger] r@[i]).id == symbols@[i].id
                &&& r@[i].kind == symbols@[i].kind
                &&& string_views(r@[i].path@) == string_views(symbols@[i].path@)
                &&& r@[i].item == symbols@[i].item
            },
{
    let mut out: Vec<MirSymbol> = Vec::new();
    let mut i: usize = 0;
    while i < symbols.len()
        invariant
            i <= symbols@.len(),
            out@.len() == i,
            forall|k: int|
                0 <= k < i ==> {
                    &&& (#[trigger] out@[k]).id == symbols@[k].id
                    &&& out@[k].kind == symbols@[k].kind
                    &&& string_views(out@[k].path@) == string_views(symbols@[k].path@)
                    &&& out@[k].item == symbols@[k].item
                },
        decreases symbols@.len() - i,
    {
        let s = &symbols[i];
        out.push(MirSymbol { id: s.id, kind: s.kind, path: copy_strings(&s.path), item: s.item });
        i = i + 1;
    }
    out
}

fn copy_instantiations(subst: &Vec<TypeSubstitution>) -> (r: Vec<MirInstantiation>)
    ensures
        r@.len() == subst@.len(),
        forall|i: int|
            0 <= i < subst@.len() ==> {
                &&& (#[trigger] r@[i]).span == subst@[i].span
                &&& r@[i].generic@ == subst@[i].generic@
                &&& r@[i].replacement == subst@[i].replacement
            },
{
    let mut out: Vec<MirInstantiation> = Vec::new();
    let mut i: usize = 0;
    while i < subst.len()
        invariant
            i <= subst@.len(),
            out@.len() == i,
            forall|k: int|
                0 <= k < i ==> {
                    &&& (#[trigger] out@[k]).span == subst@[k].span
                    &&& out@[k].generic@ == subst@[k].generic@
                    &&& out@[k].replacement == subst@[k].replacement
                },
        decreases subst@.len() - i,
    {
        let s = &subst[i];
        out.push(
            MirInstantiation { span: s.span, generic: s.generic.clone(), replacement: s.replacement },
        );
        i = i + 1;
    }
    out
}

fn copy_operand(op: &MirOperand) -> (r: MirOperand)
    ensures
        operand_text(r) == operand_text(*op),
        forall|n: int| operand_ok(r, n) == operand_ok(*op, n),
{
    match op {
        MirOperand::Copy(p) => MirOperand::Copy(*p),
        MirOperand::Const(MirConstant::Unit) => MirOperand::Const(MirConstant::Unit),
        MirOperand::Const(MirConstant::Literal(t)) => MirOperand::Const(MirConstant::Literal(t.clone())),
        MirOperand::Function(s) => MirOperand::Function(*s),
        MirOperand::Variant(s) => MirOperand::Variant(*s),
    }
}

fn branch_pattern(pattern: &HirPattern) -> (r: MirBranchPattern)
    ensures
        match *pattern {
            HirPattern::Literal { text, .. } => r matches MirBranchPattern::Literal(t) && t@ == text@,
            HirPattern::Path { resolved: Some(ResolvedPath::Symbol(symbol)), .. } => r
                == MirBranchPattern::Variant(symbol),
            _ => r is Wildcard,
        },
{
    match pattern {
        HirPattern::Literal { text, .. } => MirBranchPattern::Literal(text.clone()),
        HirPattern::Path { resolved: Some(ResolvedPath::Symbol(symbol)), .. } => MirBranchPattern::Variant(*symbol),
        _ => MirBranchPattern::Wildcard,
    }
}

/// The terminator that enters a `?`: a match of the operand `v` on the `Ok` variant, to
/// block `n`, and the `Err` variant, to block `n + 1`.
spec fn is_try_match(t: Option<MirTerminator>, v: MirOperand, ok: SymbolId, err: SymbolId, n: int, span: TextRange) -> bool {
    match t {
        Some(MirTerminator::Match { scrutinee, targets, span: s }) => operand_text(scrutinee) == operand_text(v) && s
            == span && targets@ == seq![
            MirMatchTarget { pattern: MirBranchPattern::Variant(ok), target: BasicBlockId(n as usize) },
            MirMatchTarget { pattern: MirBranchPattern::Variant(err), target: BasicBlockId((n + 1) as usize) },
        ],
        _ => false,
    }
}

/// The `Err` block of a `?`: project the error out of `v`, wrap it in the `Err` variant, and
/// return that.
spec fn is_try_err_block(b: BasicBlock, v: MirOperand, err: SymbolId, span: TextRange) -> bool {
    &&& b.statements@.len() == 2
    &&& b.statements@[0] matches MirStatement::Assign { place: MirPlace::Local(e), value, span: s0 }
    &&& s0 == span && value == (MirRvalue::ProjectVariant { source: v, variant: err, field: 0 })
    &&& b.statements@[1] matches MirStatement::Assign {
        place: MirPlace::Local(rt),
        value: MirRvalue::AggregateVariant { variant, fields },
        span: s1,
    }
    &&& s1 == span && variant == err && fields@ == seq![MirOperand::Copy(MirPlace::Local(e))]
    &&& b.terminator == Some(MirTerminator::Return { value: Some(MirOperand::Copy(MirPlace::Local(rt))), span })
}

/// The terminator that enters an `if`: a branch to block `n` and, otherwise, block `n + 1`.
pub open spec fn is_if_branch(t: Option<MirTerminator>, n: int, span: TextRange) -> bool {
    t matches Some(MirTerminator::Branch { then_target, else_target, span: s, .. }) && then_target@ == n
        && else_target@ == n + 1 && s == span
}

/// An expression whose lowering stays in the block where it starts: a missing expression, a
/// literal, a path, or a call or a non-assigning binary operation over such expressions.
pub open spec fn straight_expr(e: HirExpr) -> bool
    decreases e, 3nat,
{
    match e {
        HirExpr::Missing { .. } => true,
        HirExpr::Literal { .. } => true,
        HirExpr::Path { .. } => true,
        HirExpr::Call { callee, args, .. } => straight_expr(*callee) && straight_exprs(args@),
        HirExpr::Binary { op, left, right, .. } => op@ != "="@ && straight_expr(*left) && straight_expr(*right),
        _ => false,
    }
}

/// Every expression of `es` is straight.
pub open spec fn straight_exprs(es: Seq<HirExpr>) -> bool
    decreases es, 2nat,
{
    es.len() == 0 || (straight_exprs(es.drop_last()) && straight_expr(es.last()))
}

proof fn lemma_straight_exprs(es: Seq<HirExpr>, i: int)
    requires
        straight_exprs(es),
        0 <= i < es.len(),
    ensures
        straight_expr(es[i]),
    decreases es.len(),
{
    if i < es.len() - 1 {
        lemma_straight_exprs(es.drop_last(), i);
        assert(es.drop_last()[i] == es[i]);
    }
}

/// A statement that neither returns nor leaves the block where it starts.
pub open spec fn straight_statement(s: HirStatement) -> bool {
    match s {
        HirStatement::Let(l) => match l.value {
            Some(v) => straight_expr(v),
            None => true,
        },
        HirStatement::Expr(e) => straight_expr(e),
        HirStatement::Return { .. } => false,
    }
}

/// Every statement of the block is straight.
pub open spec fn straight_block(b: HirBlock) -> bool {
    forall|i: int| 0 <= i < b.statements@.len() ==> straight_statement(#[trigger] b.statements@[i])
}

/// An `if` whose condition and branches are straight: a straight expression or block, or no
/// `else` at all.
pub open spec fn simple_if(e: HirExpr) -> bool {
    match e {
        HirExpr::If { condition, then_block, else_branch, .. } => straight_expr(*condition) && straight_block(
            then_block,
        ) && match else_branch {
            Some(x) => straight_expr(*x) || (*x matches HirExpr::Block(b) && straight_block(b)),
            None => true,
        },
        _ => false,
    }
}

/// A branch block of an `if`: it ends by assigning the `if`'s result and jumping to the join
/// block `join`.
pub open spec fn branch_joined(b: BasicBlock, result: MirLocalId, join: int) -> bool {
    &&& b.statements@.len() > 0
    &&& b.statements@.last() matches MirStatement::Assign {
        place: MirPlace::Local(x),
        value: MirRvalue::Use(_),
        ..
    } && x == result
    &&& b.terminator matches Some(MirTerminator::Goto { target, .. }) && target@ == join
}

/// The four blocks of a function whose body is one simple `if`: the entry branches to the two
/// branch blocks, each assigns the result and jumps to the last block, which returns the result.
pub open spec fn if_body_lowered(f: MirFunction, span: TextRange, body_span: TextRange) -> bool {
    &&& f.blocks@.len() == 4
    &&& is_if_branch(f.blocks@[0].terminator, 1, span)
    &&& f.blocks@[3].statements@.len() == 0
    &&& f.blocks@[3].terminator matches Some(
        MirTerminator::Return { value: Some(MirOperand::Copy(MirPlace::Local(t))), span: s },
    ) && s == body_span && branch_joined(f.blocks@[1], t, 3) && branch_joined(f.blocks@[2], t, 3)
}

/// The return type a lowered function records: the type of its body when one was recorded,
/// else the return type of its item's function type.
pub open spec fn function_return_type(typed: TypeCheckResult, h: HirFunction, symbol: Option<SymbolId>) -> Option<
    TypeId,
> {
    let from_body = match h.body {
        Some(b) => last_expr_type(
            typed.type_table.expressions@,
            h.name@,
            b.span,
            typed.type_table.expressions@.len() as int,
        ),
        None => None,
    };
    match from_body {
        Some(t) => Some(t),
        None => match symbol {
            None => None,
            Some(s) => match last_item_type(typed.type_table.items@, s, typed.type_table.items@.len() as int) {
                None => None,
                Some(t) => if t@ < typed.type_table.types@.len() {
                    match typed.type_table.types@[t@ as int] {
                        TypeKind::Function { return_type, .. } => Some(return_type),
                        _ => None,
                    }
                } else {
                    None
                },
            },
        },
    }
}

/// What lowering fixes of the MIR function `f` of the HIR function `h`: its name, span and
/// return type; for a function without a body, one block that returns nothing; for a body
/// whose statements are all straight, one block that ends the function with a `Return`, which
/// carries a value exactly when the body ends with an expression, and the literal itself when
/// that expression is a literal; for a body that is one simple `if`, the four blocks of
/// `if_body_lowered`.
pub open spec fn function_lowered(f: MirFunction, h: HirFunction, typed: TypeCheckResult) -> bool {
    &&& f.name@ == h.name@
    &&& f.span == h.span
    &&& f.return_type == function_return_type(typed, h, f.symbol)
    &&& match h.body {
        None => f.blocks@.len() == 1 && f.blocks@[0].statements@.len() == 0 && f.blocks@[0].terminator == Some(
            MirTerminator::Return { value: None, span: h.span },
        ),
        Some(b) => {
            &&& straight_block(b) ==> f.blocks@.len() == 1 && (f.blocks@[0].terminator matches Some(
                MirTerminator::Return { value, span },
            ) && span == b.span && (value is Some <==> (b.statements@.len() > 0 && b.statements@.last() is Expr))
                && (b.statements@.len() > 0 ==> (b.statements@.last() matches HirStatement::Expr(
                HirExpr::Literal { text, .. },
            ) ==> (value matches Some(MirOperand::Const(MirConstant::Literal(t))) && t@ == text@))))
            &&& b.statements@.len() == 1 ==> (b.statements@[0] matches HirStatement::Expr(e) ==> (simple_if(e)
                ==> if_body_lowered(f, e->If_span, b.span)))
        },
    }
}

/// Each MIR function is lowered from the HIR function at its place.
pub open spec fn bodies_lowered(fs: Seq<MirFunction>, hs: Seq<HirFunction>, typed: TypeCheckResult) -> bool {
    &&& fs.len() == hs.len()
    &&& forall|i: int| 0 <= i < fs.len() ==> function_lowered(#[trigger] fs[i], hs[i], typed)
}

struct FunctionLowerer<'t> {
    id: MirFunctionId,
    item: ItemId,
    symbol: Option<SymbolId>,
    source_id: SourceId,
    function: &'t HirFunction,
    typed: &'t TypeCheckResult,
    locals: Vec<MirLocal>,
    local_map: Vec<(LocalId, MirLocalId)>,
    blocks: Vec<BasicBlock>,
    current: BasicBlockId,
}

impl<'t> FunctionLowerer<'t> {
    spec fn wf(&self) -> bool {
        let nl = self.locals@.len() as int;
        let nb = self.blocks@.len() as int;
        &&& forall|i: int| 0 <= i < nl ==> (#[trigger] self.locals@[i]).id@ == i
        &&& forall|i: int| 0 <= i < nb ==> (#[trigger] self.blocks@[i]).id@ == i
        &&& forall|i: int| 0 <= i < nb ==> block_ok(#[trigger] self.blocks@[i], nl, nb)
        &&& self.current@ < nb
        &&& forall|k: int| 0 <= k < self.local_map@.len() ==> (#[trigger] self.local_map@[k]).1@ < nl
        &&& locals_mirror(self.locals@, self.function.locals@)
    }

    spec fn keeps(&self, before: &Self) -> bool {
        &&& self.id == before.id
        &&& self.item == before.item
        &&& self.symbol == before.symbol
        &&& self.source_id == before.source_id
        &&& self.function == before.function
        &&& self.typed == before.typed
        &&& self.locals@.len() >= before.locals@.len()
        &&& self.blocks@.len() >= before.blocks@.len()
        &&& self.current == before.current || self.current@ >= before.blocks@.len()
        &&& self.local_map@ == before.local_map@
        &&& forall|b: int|
            0 <= b < before.blocks@.len() && b != before.current@ ==> #[trigger] self.blocks@[b] == before.blocks@[b]
    }

    /// A simple `if` was lowered from `before`: three new blocks, the block where it started
    /// branches to the first two, each of them assigns `result` and jumps to the third, which is
    /// empty and current.
    spec fn simple_if_lowered(&self, before: &Self, span: TextRange, result: MirLocalId) -> bool {
        let n = before.blocks@.len() as int;
        &&& self.blocks@.len() == n + 3
        &&& self.current@ == n + 2
        &&& is_if_branch(self.blocks@[before.current@ as int].terminator, n, span)
        &&& branch_joined(self.blocks@[n], result, n + 2)
        &&& branch_joined(self.blocks@[n + 1], result, n + 2)
        &&& self.blocks@[n + 2].statements@.len() == 0
        &&& self.blocks@[n + 2].terminator is None
    }

    /// The operand that lowering `e` from this state yields, as far as the expression fixes it:
    /// a literal is its own constant, a symbol its function or variant, a mapped local that MIR
    /// local; any other expression but a block yields a temporary created while it was lowered,
    /// numbered in `lo..hi`.
    spec fn operand_from(&self, e: HirExpr, op: MirOperand, lo: int, hi: int) -> bool {
        match e {
            HirExpr::Literal { text, .. } => op matches MirOperand::Const(MirConstant::Literal(t)) && t@ == text@,
            HirExpr::Path { resolved: Some(ResolvedPath::Symbol(s)), .. } => op == self.symbol_operand(s),
            HirExpr::Path { resolved: Some(ResolvedPath::Local(l)), .. } => if unmapped(self.local_map@, l) {
                op matches MirOperand::Copy(MirPlace::Local(t)) && lo <= t@ < hi
            } else {
                op matches MirOperand::Copy(MirPlace::Local(x)) && maps_to(self.local_map@, l, x)
            },
            HirExpr::Block(_) => true,
            _ => op matches MirOperand::Copy(MirPlace::Local(t)) && lo <= t@ < hi,
        }
    }

    /// A binary operation `left op right` was lowered from `before`: the current block ends by
    /// assigning `op` applied to the operand of `left` on the left and the operand of `right` on
    /// the right, each lowered in turn (`left`'s temporaries first), to the local that `r` reads.
    spec fn binary_lowered(&self, before: &Self, op: &'static str, left: HirExpr, right: HirExpr, r: MirOperand) -> bool {
        let b = self.blocks@[self.current@ as int];
        &&& b.statements@.len() > 0
        &&& b.statements@.last() matches MirStatement::Assign {
            place,
            value: MirRvalue::Binary { op: o, left: lo, right: ro },
            ..
        } && r == MirOperand::Copy(place) && o@ == op@ && exists|mid: int|
            before.operand_from(left, lo, before.locals@.len() as int, mid) && before.operand_from(
                right,
                ro,
                mid,
                self.locals@.len() as int,
            )
    }

    proof fn lemma_operand_from_widen(&self, e: HirExpr, op: MirOperand, lo: int, hi: int, hi2: int)
        requires
            self.operand_from(e, op, lo, hi),
            hi <= hi2,
        ensures
            self.operand_from(e, op, lo, hi2),
    {
    }

    /// Lowering stayed in the block where it started and left its terminator as it was.
    spec fn in_place(&self, before: &Self) -> bool {
        &&& self.current == before.current
        &&& self.blocks@.len() == before.blocks@.len()
        &&& self.blocks@[self.current@ as int].terminator == before.blocks@[before.current@ as int].terminator
    }

    fn new(
        id: MirFunctionId,
        item: ItemId,
        symbol: Option<SymbolId>,
        source_id: SourceId,
        function: &'t HirFunction,
        typed: &'t TypeCheckResult,
    ) -> (r: Self)
        ensures
            r.wf(),
            r.id == id,
            r.item == item,
            r.symbol == symbol,
            r.source_id == source_id,
            r.function == function,
            r.typed == typed,
            r.blocks@.len() == 1,
            r.current@ == 0,
            r.blocks@[0].statements@.len() == 0,
            r.blocks@[0].terminator is None,
    {
        let mut locals: Vec<MirLocal> = Vec::new();
        let mut local_map: Vec<(LocalId, MirLocalId)> = Vec::new();
        let mut i: usize = 0;
        while i < function.locals.len()
            invariant
                i <= function.locals@.len(),
                locals@.len() == i,
                forall|k: int| 0 <= k < locals@.len() ==> (#[trigger] locals@[k]).id@ == k,
                forall|k: int| 0 <= k < local_map@.len() ==> (#[trigger] local_map@[k]).1@ < locals@.len(),
                forall|k: int|
                    0 <= k < i ==> {
                        &&& (#[trigger] locals@[k]).kind == mir_kind_of(function.locals@[k].kind)
                        &&& locals@[k].hir_local == Some(function.locals@[k].id)
                        &&& locals@[k].name@ == function.locals@[k].name@
                    },
            decreases function.locals@.len() - i,
        {
            let local = &function.locals[i];
            let mid = MirLocalId::new(locals.len());
            map_insert(&mut local_map, local.id, mid);
            let ty = local_type_of(typed, &function.name, local.id);
            locals.push(
                MirLocal {
                    id: mid,
                    name: local.name.clone(),
                    kind: MirLocalKind::from_local_kind(local.kind),
                    hir_local: Some(local.id),
                    ty,
                    span: local.span,
                },
            );
            i = i + 1;
        }
        let mut blocks: Vec<BasicBlock> = Vec::new();
        blocks.push(
            BasicBlock {
                id: BasicBlockId::new(0),
                statements: Vec::new(),
                terminator: None,
                span: function.span,
            },
        );
        FunctionLowerer {
            id,
            item,
            symbol,
            source_id,
            function,
            typed,
            locals,
            local_map,
            blocks,
            current: BasicBlockId::new(0),
        }
    }

    fn lower(self) -> (r: MirFunction)
        requires
            self.wf(),
            self.blocks@.len() == 1,
            self.current@ == 0,
            self.blocks@[0].statements@.len() == 0,
            self.blocks@[0].terminator is None,
        ensures
            mir_function_wf(r),
            r.id == self.id,
            r.item == self.item,
            r.symbol == self.symbol,
            r.source_id == self.source_id,
            r.name@ == self.function.name@,
            locals_mirror(r.locals@, self.function.locals@),
            function_lowered(r, *self.function, *self.typed),
    {
        let mut lowerer = self;
        let function = lowerer.function;
        let from_body = match &function.body {
            Some(body) => expr_type_of(lowerer.typed, &function.name, body.span),
            None => None,
        };
        let return_type = match from_body {
            Some(t) => Some(t),
            None => lowerer.return_type_from_item(),
        };
        proof {
            assert(lowerer.blocks@[lowerer.current@ as int].terminator is None);
        }
        match &function.body {
            Some(body) => {
                let tail = lowerer.lower_block(body);
                if !lowerer.current_is_terminated() {
                    lowerer.set_terminator(MirTerminator::Return { value: tail, span: body.span });
                }
            },
            None => {
                if !lowerer.current_is_terminated() {
                    lowerer.set_terminator(MirTerminator::Return { value: None, span: function.span });
                }
            },
        }
        MirFunction {
            id: lowerer.id,
            item: lowerer.item,
            symbol: lowerer.symbol,
            source_id: lowerer.source_id,
            name: function.name.clone(),
            return_type,
            locals: lowerer.locals,
            blocks: lowerer.blocks,
            span: function.span,
        }
    }

    spec fn item_return_type(&self) -> Option<TypeId> {
        match self.symbol {
            None => None,
            Some(s) => match last_item_type(
                self.typed.type_table.items@,
                s,
                self.typed.type_table.items@.len() as int,
            ) {
                None => None,
                Some(t) => if t@ < self.typed.type_table.types@.len() {
                    match self.typed.type_table.types@[t@ as int] {
                        TypeKind::Function { return_type, .. } => Some(return_type),
                        _ => None,
                    }
                } else {
                    None
                },
            },
        }
    }

    fn return_type_from_item(&self) -> (r: Option<TypeId>)
        ensures
            r == self.item_return_type(),
    {
        let symbol = match self.symbol {
            Some(s) => s,
            None => {
                return None;
            },
        };
        let ty = match item_type_of(self.typed, symbol) {
            Some(t) => t,
            None => {
                return None;
            },
        };
        if ty.get() >= self.typed.type_table.types.len() {
            return None;
        }
        match &self.typed.type_table.types[ty.get()] {
            TypeKind::Function { return_type, .. } => Some(*return_type),
            _ => None,
        }
    }

    fn expr_type(&self, expr: &HirExpr) -> (r: Option<TypeId>)
        ensures
            r == last_expr_type(
                self.typed.type_table.expressions@,
                self.function.name@,
                hir_expr_span(*expr),
                self.typed.type_table.expressions@.len() as int,
            ),
    {
        expr_type_of(self.typed, &self.function.name, expr_span(expr))
    }

    fn current_is_terminated(&self) -> (r: bool)
        requires
            self.wf(),
        ensures
            r == (self.blocks@[self.current@ as int].terminator is Some),
    {
        self.blocks[self.current.get()].terminator.is_some()
    }

    fn new_block(&mut self, span: TextRange) -> (r: BasicBlockId)
        requires
            old(self).wf(),
        ensures
            final(self).wf(),
            final(self).keeps(old(self)),
            final(self).locals@.len() == old(self).locals@.len(),
            final(self).current == old(self).current,
            r@ < final(self).blocks@.len(),
            r@ == old(self).blocks@.len(),
            final(self).locals@ == old(self).locals@,
            final(self).local_map@ == old(self).local_map@,
            final(self).blocks@.drop_last() == old(self).blocks@,
            final(self).blocks@.len() == old(self).blocks@.len() + 1,
            final(self).blocks@.last().id == r,
            final(self).blocks@.last().statements@.len() == 0,
            final(self).blocks@.last().terminator is None,
            final(self).blocks@.last().span == span,
    {
        let id = BasicBlockId::new(self.blocks.len());
        proof {
            lemma_blocks_mono(
                self.blocks@,
                self.locals@.len() as int,
                self.blocks@.len() as int,
                self.locals@.len() as int,
                (self.blocks@.len() + 1) as int,
            );
        }
        self.blocks.push(BasicBlock { id, statements: Vec::new(), terminator: None, span });
        proof {
            assert(self.blocks@.drop_last() =~= old(self).blocks@);
        }
        id
    }

    fn alloc_temp(&mut self, name: &str, ty: Option<TypeId>, span: TextRange) -> (r: MirLocalId)
        requires
            old(self).wf(),
        ensures
            final(self).wf(),
            final(self).keeps(old(self)),
            final(self).blocks@.len() == old(self).blocks@.len(),
            final(self).current == old(self).current,
            r@ < final(self).locals@.len(),
            r@ == old(self).locals@.len(),
            final(self).blocks@ == old(self).blocks@,
            final(self).locals@.drop_last() == old(self).locals@,
            final(self).locals@.len() == old(self).locals@.len() + 1,
            final(self).locals@.last().id == r,
            final(self).locals@.last().kind == MirLocalKind::Temp,
            final(self).locals@.last().hir_local is None,
            final(self).locals@.last().ty == ty,
            final(self).locals@.last().span == span,
            final(self).locals@.last().name@ == "_"@ + name@ + decimal(r@ as nat),
            final(self).local_map@ == old(self).local_map@,
    {
        let id = MirLocalId::new(self.locals.len());
        let mut text = owned("_");
        text.append(name);
        push_decimal(&mut text, id.get());
        proof {
            lemma_blocks_mono(
                self.blocks@,
                self.locals@.len() as int,
                self.blocks@.len() as int,
                (self.locals@.len() + 1) as int,
                self.blocks@.len() as int,
            );
        }
        self.locals.push(
            MirLocal { id, name: text, kind: MirLocalKind::Temp, hir_local: None, ty, span },
        );
        proof {
            reveal_strlit("_");
            assert(self.locals@.drop_last() =~= old(self).locals@);
        }
        id
    }

    fn push_assign(&mut self, place: MirPlace, value: MirRvalue, span: TextRange)
        requires
            old(self).wf(),
            statement_ok(MirStatement::Assign { place, value, span }, old(self).locals@.len() as int),
        ensures
            final(self).wf(),
            final(self).keeps(old(self)),
            final(self).locals@.len() == old(self).locals@.len(),
            final(self).blocks@.len() == old(self).blocks@.len(),
            final(self).current == old(self).current,
            final(self).locals@ == old(self).locals@,
            final(self).local_map@ == old(self).local_map@,
            final(self).blocks@[old(self).current@ as int].statements@ == old(self).blocks@[old(self).current@ as int].statements@.push(MirStatement::Assign { place, value, span }),
            final(self).blocks@[old(self).current@ as int].terminator == old(self).blocks@[old(self).current@ as int].terminator,
            forall|b: int|
                0 <= b < old(self).blocks@.len() && b != old(self).current@ ==> #[trigger] final(self).blocks@[b] == old(self).blocks@[b],
    {
        let c = self.current.get();
        let ghost nl = self.locals@.len() as int;
        let ghost nb = self.blocks@.len() as int;
        let ghost old_block = self.blocks@[c as int];
        self.blocks[c].statements.push(MirStatement::Assign { place, value, span });
        proof {
            let b = self.blocks@[c as int];
            assert(b.statements@ == old_block.statements@.push(MirStatement::Assign { place, value, span }));
            assert forall|i: int| 0 <= i < b.statements@.len() implies statement_ok(
                #[trigger] b.statements@[i],
                nl,
            ) by {
                if i < old_block.statements@.len() {
                    assert(b.statements@[i] == old_block.statements@[i]);
                }
            }
            assert(block_ok(b, nl, nb));
        }
    }

    fn set_terminator(&mut self, terminator: MirTerminator)
        requires
            old(self).wf(),
            terminator_ok(terminator, old(self).locals@.len() as int, old(self).blocks@.len() as int),
        ensures
            final(self).wf(),
            final(self).keeps(old(self)),
            final(self).locals@.len() == old(self).locals@.len(),
            final(self).blocks@.len() == old(self).blocks@.len(),
            final(self).current == old(self).current,
            final(self).locals@ == old(self).locals@,
            final(self).local_map@ == old(self).local_map@,
            final(self).blocks@[old(self).current@ as int].terminator == Some(terminator),
            final(self).blocks@[old(self).current@ as int].statements@ == old(self).blocks@[old(self).current@ as int].statements@,
            forall|b: int|
                0 <= b < old(self).blocks@.len() && b != old(self).current@ ==> #[trigger] final(self).blocks@[b] == old(self).blocks@[b],
    {
        let c = self.current.get();
        self.blocks[c].terminator = Some(terminator);
    }
}

/// The type recorded for a local of the named owner; the last record wins.
/// The type of the last record among the first `n` for local `local` of `owner`.
pub open spec fn last_local_type(locals: Seq<LocalType>, owner: Seq<char>, local: LocalId, n: int) -> Option<TypeId>
    decreases n,
{
    if n <= 0 {
        None
    } else if locals[n - 1].local@ == local@ && locals[n - 1].owner@ == owner {
        Some(locals[n - 1].ty)
    } else {
        last_local_type(locals, owner, local, n - 1)
    }
}

/// The type of the last record among the first `n` for the expression at `span` of `owner`.
pub open spec fn last_expr_type(exprs: Seq<ExprType>, owner: Seq<char>, span: TextRange, n: int) -> Option<TypeId>
    decreases n,
{
    if n <= 0 {
        None
    } else if exprs[n - 1].span == span && exprs[n - 1].owner@ == owner {
        Some(exprs[n - 1].ty)
    } else {
        last_expr_type(exprs, owner, span, n - 1)
    }
}

/// The type of the last record among the first `n` for item symbol `symbol`.
pub open spec fn last_item_type(items: Seq<ItemType>, symbol: SymbolId, n: int) -> Option<TypeId>
    decreases n,
{
    if n <= 0 {
        None
    } else if items[n - 1].symbol@ == symbol@ {
        Some(items[n - 1].ty)
    } else {
        last_item_type(items, symbol, n - 1)
    }
}

fn local_type_of(typed: &TypeCheckResult, owner: &String, local: LocalId) -> (r: Option<TypeId>)
    ensures
        r == last_local_type(typed.type_table.locals@, owner@, local, typed.type_table.locals@.len() as int),
{
    let locals = &typed.type_table.locals;
    let mut i: usize = locals.len();
    while i > 0
        invariant
            i <= locals@.len(),
            locals@ == typed.type_table.locals@,
            last_local_type(locals@, owner@, local, locals@.len() as int) == last_local_type(
                locals@,
                owner@,
                local,
                i as int,
            ),
        decreases i,
    {
        i = i - 1;
        if locals[i].local.get() == local.get() && str_eq(locals[i].owner.as_str(), owner.as_str()) {
            proof {
                assert(last_local_type(locals@, owner@, local, i + 1) == Some(locals@[i as int].ty));
            }
            return Some(locals[i].ty);
        }
    }
    None
}

/// The type recorded for an expression span of the named owner; the last record wins.
fn expr_type_of(typed: &TypeCheckResult, owner: &String, span: TextRange) -> (r: Option<TypeId>)
    ensures
        r == last_expr_type(typed.type_table.expressions@, owner@, span, typed.type_table.expressions@.len() as int),
{
    let exprs = &typed.type_table.expressions;
    let mut i: usize = exprs.len();
    while i > 0
        invariant
            i <= exprs@.len(),
            exprs@ == typed.type_table.expressions@,
            last_expr_type(exprs@, owner@, span, exprs@.len() as int) == last_expr_type(
                exprs@,
                owner@,
                span,
                i as int,
            ),
        decreases i,
    {
        i = i - 1;
        if exprs[i].span.start == span.start && exprs[i].span.end == span.end && str_eq(
            exprs[i].owner.as_str(),
            owner.as_str(),
        ) {
            proof {
                assert(exprs@[i as int].span == span);
                assert(last_expr_type(exprs@, owner@, span, i + 1) == Some(exprs@[i as int].ty));
            }
            return Some(exprs[i].ty);
        }
    }
    None
}

/// The type recorded for a top-level item symbol; the last record wins.
fn item_type_of(typed: &TypeCheckResult, symbol: SymbolId) -> (r: Option<TypeId>)
    ensures
        r == last_item_type(typed.type_table.items@, symbol, typed.type_table.items@.len() as int),
{
    let items = &typed.type_table.items;
    let mut i: usize = items.len();
    while i > 0
        invariant
            i <= items@.len(),
            items@ == typed.type_table.items@,
            last_item_type(items@, symbol, items@.len() as int) == last_item_type(items@, symbol, i as int),
        decreases i,
    {
        i = i - 1;
        if items[i].symbol.get() == symbol.get() {
            proof {
                assert(last_item_type(items@, symbol, i + 1) == Some(items@[i as int].ty));
            }
            return Some(items[i].ty);
        }
    }
    None
}

/// `id` is the MIR local mapped to `local` at its first entry in `map`.
pub open spec fn maps_to(map: Seq<(LocalId, MirLocalId)>, local: LocalId, id: MirLocalId) -> bool {
    exists|k: int|
        0 <= k < map.len() && (#[trigger] map[k]).0@ == local@ && map[k].1 == id && forall|j: int|
            0 <= j < k ==> map[j].0@ != local@
}

/// No entry of `map` is for `local`.
pub open spec fn unmapped(map: Seq<(LocalId, MirLocalId)>, local: LocalId) -> bool {
    forall|k: int| 0 <= k < map.len() ==> (#[trigger] map[k]).0@ != local@
}

/// Inserts or replaces the MIR local of a HIR local.
fn map_insert(map: &mut Vec<(LocalId, MirLocalId)>, local: LocalId, id: MirLocalId)
    ensures
        forall|k: int|
            0 <= k < final(map)@.len() ==> ((k < old(map)@.len() && (#[trigger] final(map)@[k]).1
                == old(map)@[k].1) || final(map)@[k].1 == id),
        (exists|i: int|
            0 <= i < old(map)@.len() && (#[trigger] old(map)@[i]).0@ == local@ && (forall|j: int|
                0 <= j < i ==> old(map)@[j].0@ != local@) && final(map)@ == old(map)@.update(
                i,
                (local, id),
            )) || ((forall|k: int| 0 <= k < old(map)@.len() ==> (#[trigger] old(map)@[k]).0@ != local@)
            && final(map)@ == old(map)@.push((local, id))),
{
    let mut i: usize = 0;
    while i < map.len()
        invariant
            i <= map@.len(),
            map@ == old(map)@,
            forall|j: int| 0 <= j < i ==> (#[trigger] map@[j]).0@ != local@,
        decreases map@.len() - i,
    {
        if map[i].0.get() == local.get() {
            map.set(i, (local, id));
            return;
        }
        i = i + 1;
    }
    map.push((local, id));
}

/// The MIR local of a HIR local, if one was allocated.
fn map_get(map: &Vec<(LocalId, MirLocalId)>, local: LocalId) -> (r: Option<MirLocalId>)
    ensures
        r matches Some(id) ==> exists|k: int| 0 <= k < map@.len() && (#[trigger] map@[k]).1 == id,
        r matches Some(id) ==> maps_to(map@, local, id),
        r is None <==> unmapped(map@, local),
{
    let mut i: usize = 0;
    while i < map.len()
        invariant
            i <= map@.len(),
            forall|j: int| 0 <= j < i ==> (#[trigger] map@[j]).0@ != local@,
        decreases map@.len() - i,
    {
        if map[i].0.get() == local.get() {
            return Some(map[i].1);
        }
        i = i + 1;
    }
    None
}

impl<'t> FunctionLowerer<'t> {
    spec fn step(&self, before: &Self) -> bool {
        &&& self.wf()
        &&& self.keeps(before)
    }

    fn lower_block(&mut self, block: &HirBlock) -> (r: Option<MirOperand>)
        requires
            old(self).wf(),
        ensures
            final(self).step(old(self)),
            r matches Some(op) ==> operand_ok(op, final(self).locals@.len() as int),
            r is Some ==> block.statements@.len() > 0 && block.statements@.last() is Expr,
            block.statements@.len() == 0 ==> r is None && *final(self) == *old(self),
            straight_block(*block) ==> final(self).in_place(old(self)),
            straight_block(*block) && old(self).blocks@[old(self).current@ as int].terminator is None
                && block.statements@.len() > 0 && block.statements@.last() is Expr ==> r is Some,
            straight_block(*block) && old(self).blocks@[old(self).current@ as int].terminator is None
                && block.statements@.len() > 0 ==> (block.statements@.last() matches HirStatement::Expr(
                HirExpr::Literal { text, .. },
            ) ==> (r matches Some(MirOperand::Const(MirConstant::Literal(t))) && t@ == text@)),
            old(self).blocks@[old(self).current@ as int].terminator is None && block.statements@.len() == 1
                ==> (block.statements@[0] matches HirStatement::Expr(e) ==> (simple_if(e) ==> (r matches Some(
                MirOperand::Copy(MirPlace::Local(t)),
            ) && final(self).simple_if_lowered(old(self), e->If_span, t)))),
        decreases block, 10nat,
    {
        let mut tail: Option<MirOperand> = None;
        let n = block.statements.len();
        let last_index: usize = if n == 0 {
            0
        } else {
            n - 1
        };
        let mut i: usize = 0;
        while i < n && !self.current_is_terminated()
            invariant
                self.step(old(self)),
                i <= n,
                n == block.statements@.len(),
                tail matches Some(op) ==> operand_ok(op, self.locals@.len() as int),
                tail is Some ==> n > 0 && block.statements@[n - 1] is Expr,
                n > 0 ==> last_index == n - 1,
                n == 0 ==> *self == *old(self) && tail is None,
                straight_block(*block) ==> self.in_place(old(self)),
                straight_block(*block) && i == n && n > 0 && block.statements@[n - 1] is Expr ==> tail is Some,
                straight_block(*block) && i == n && n > 0 ==> (block.statements@[n - 1] matches HirStatement::Expr(
                    HirExpr::Literal { text, .. },
                ) ==> (tail matches Some(MirOperand::Const(MirConstant::Literal(t))) && t@ == text@)),
                i == 0 ==> *self == *old(self),
                old(self).blocks@[old(self).current@ as int].terminator is None && n == 1 && i == 1 ==> (
                block.statements@[0] matches HirStatement::Expr(e) ==> (simple_if(e) ==> (tail matches Some(
                    MirOperand::Copy(MirPlace::Local(t)),
                ) && self.simple_if_lowered(old(self), e->If_span, t)))),
            decreases n - i,
        {
            proof {
                assert(decreases_to!(*block => block.statements));
                assert(decreases_to!(block.statements => block.statements@));
                assert(decreases_to!(block.statements@ => block.statements@[i as int]));
            }
            let statement = &block.statements[i];
            proof {
                if straight_block(*block) {
                    assert(straight_statement(block.statements@[i as int]));
                }
            }
            tail = match statement {
                HirStatement::Let(l) => {
                    proof {
                        assert(decreases_to!(*statement => *l));
                    }
                    self.lower_let(l);
                    None
                },
                HirStatement::Return { expr, span } => {
                    let value = match expr {
                        Some(e) => {
                            proof {
                                assert(decreases_to!(*statement => *expr));
                                assert(decreases_to!(*expr => *e));
                            }
                            Some(self.lower_expr(e))
                        },
                        None => None,
                    };
                    self.set_terminator(MirTerminator::Return { value, span: *span });
                    None
                },
                HirStatement::Expr(e) => {
                    proof {
                        assert(decreases_to!(*statement => *e));
                    }
                    let value = self.lower_expr(e);
                    if i == last_index {
                        Some(value)
                    } else {
                        None
                    }
                },
            };
            i = i + 1;
        }
        tail
    }

    fn lower_let(&mut self, statement: &HirLet)
        requires
            old(self).wf(),
        ensures
            final(self).step(old(self)),
            statement.value is None ==> *final(self) == *old(self),
            (statement.value matches Some(v) ==> straight_expr(v)) ==> final(self).in_place(old(self)),
            statement.value is Some && (statement.local matches Some(l) && !unmapped(old(self).local_map@, l))
                ==> final(self).blocks@[final(self).current@ as int].statements@.len() > 0 && (final(self).blocks@[final(self).current@ as int].statements@.last() matches MirStatement::Assign {
                place: MirPlace::Local(target),
                value: MirRvalue::Use(_),
                span,
            } && maps_to(old(self).local_map@, statement.local->Some_0, target) && span == statement.span),
        decreases statement, 10nat,
    {
        let local = match statement.local {
            Some(l) => map_get(&self.local_map, l),
            None => None,
        };
        match local {
            None => {
                if let Some(value) = &statement.value {
                    proof {
                        assert(decreases_to!(*statement => statement.value));
                    }
                    self.lower_expr(value);
                }
            },
            Some(local) => {
                if let Some(value) = &statement.value {
                    proof {
                        assert(decreases_to!(*statement => statement.value));
                    }
                    let v = self.lower_expr(value);
                    self.push_assign(MirPlace::Local(local), MirRvalue::Use(v), statement.span);
                }
            },
        }
    }

    fn lower_expr(&mut self, expr: &HirExpr) -> (r: MirOperand)
        requires
            old(self).wf(),
        ensures
            final(self).step(old(self)),
            operand_ok(r, final(self).locals@.len() as int),
            *expr matches HirExpr::Literal { text, .. } ==> (r matches MirOperand::Const(MirConstant::Literal(t))
                && t@ == text@) && *final(self) == *old(self),
            *expr matches HirExpr::Path { resolved: Some(ResolvedPath::Symbol(symbol)), .. } ==> r == old(
                self).symbol_operand(symbol) && *final(self) == *old(self),
            (expr is Missing || expr is Call || expr is If || expr is Match || expr is Binary || expr is Try)
                ==> (r matches MirOperand::Copy(MirPlace::Local(t)) && old(self).locals@.len() <= t@ < final(
                self).locals@.len()),
            straight_expr(*expr) ==> final(self).in_place(old(self)),
            old(self).operand_from(*expr, r, old(self).locals@.len() as int, final(self).locals@.len() as int),
            *expr matches HirExpr::Binary { op, left, right, .. } ==> (op@ != "="@ ==> final(self).binary_lowered(
                old(self),
                op,
                *left,
                *right,
                r,
            )),
            *expr matches HirExpr::Block(b) ==> (straight_block(b) ==> final(self).in_place(old(self))),
            simple_if(*expr) ==> (r matches MirOperand::Copy(MirPlace::Local(t)) && final(self).simple_if_lowered(
                old(self),
                expr->If_span,
                t,
            )),
        decreases expr, 10nat,
    {
        match expr {
            HirExpr::Missing { span } => {
                let ty = self.expr_type(expr);
                let temp = self.alloc_temp("_missing", ty, *span);
                MirOperand::Copy(MirPlace::Local(temp))
            },
            HirExpr::Literal { text, .. } => MirOperand::Const(MirConstant::Literal(text.clone())),
            HirExpr::Path { resolved, span, .. } => self.lower_path(resolved, *span),
            HirExpr::Call { callee, args, span } => {
                let callee_op = self.lower_expr(callee);
                let mut lowered: Vec<MirOperand> = Vec::new();
                let mut i: usize = 0;
                while i < args.len()
                    invariant
                        self.step(old(self)),
                        operand_ok(callee_op, self.locals@.len() as int),
                        operands_ok(lowered@, self.locals@.len() as int),
                        *expr == (HirExpr::Call { callee: *callee, args: *args, span: *span }),
                        straight_expr(*expr) ==> self.in_place(old(self)),
                    decreases args@.len() - i,
                {
                    proof {
                        assert(decreases_to!(*expr => (*expr)->Call_args));
                        assert((*expr)->Call_args == *args);
                        assert(decreases_to!(*args => args@));
                        assert(decreases_to!(args@ => args@[i as int]));
                    }
                    let ghost before = lowered@;
                    let ghost nl0 = self.locals@.len() as int;
                    proof {
                        if straight_expr(*expr) {
                            lemma_straight_exprs(args@, i as int);
                        }
                    }
                    let op = self.lower_expr(&args[i]);
                    proof {
                        lemma_operands_mono(before, nl0, self.locals@.len() as int);
                    }
                    lowered.push(op);
                    proof {
                        assert forall|k: int| 0 <= k < lowered@.len() implies operand_ok(
                            #[trigger] lowered@[k],
                            self.locals@.len() as int,
                        ) by {
                            if k < before.len() {
                                assert(lowered@[k] == before[k]);
                            }
                        }
                    }
                    i = i + 1;
                }
                let ty = self.expr_type(expr);
                let ghost nl0 = self.locals@.len() as int;
                let temp = self.alloc_temp("call", ty, *span);
                proof {
                    lemma_operands_mono(lowered@, nl0, self.locals@.len() as int);
                }
                self.push_assign(
                    MirPlace::Local(temp),
                    MirRvalue::Call { callee: callee_op, args: lowered },
                    *span,
                );
                MirOperand::Copy(MirPlace::Local(temp))
            },
            HirExpr::Block(block) => match self.lower_block(block) {
                Some(op) => op,
                None => MirOperand::Const(MirConstant::Unit),
            },
            HirExpr::If { .. } => self.lower_if(expr),
            HirExpr::Match { .. } => self.lower_match(expr),
            HirExpr::Binary { op, left, right, span } => {
                if str_eq(op, "=") {
                    self.lower_assignment(expr)
                } else {
                    let l = self.lower_expr(left);
                    let ghost s1 = *self;
                    let r = self.lower_expr(right);
                    let ghost s2 = *self;
                    let ty = self.expr_type(expr);
                    let temp = self.alloc_temp("binary", ty, *span);
                    self.push_assign(
                        MirPlace::Local(temp),
                        MirRvalue::Binary { op: *op, left: l, right: r },
                        *span,
                    );
                    proof {
                        let mid = s1.locals@.len() as int;
                        old(self).lemma_operand_from_widen(**left, l, old(self).locals@.len() as int, mid, mid);
                        s1.lemma_operand_from_widen(**right, r, mid, s2.locals@.len() as int, self.locals@.len() as int);
                        assert(s1.operand_from(**right, r, mid, self.locals@.len() as int));
                        assert(old(self).operand_from(**right, r, mid, self.locals@.len() as int));
                        assert(self.binary_lowered(old(self), *op, **left, **right, MirOperand::Copy(MirPlace::Local(temp))));
                    }
                    MirOperand::Copy(MirPlace::Local(temp))
                }
            },
            HirExpr::Try { .. } => self.lower_try(expr),
        }
    }

    /// A function symbol is called by name; any other symbol is a variant constructor.
    spec fn symbol_operand(&self, symbol: SymbolId) -> MirOperand {
        if symbol@ < self.typed.package.symbols@.len() && self.typed.package.symbols@[symbol@ as int].kind
            == SymbolKind::Function {
            MirOperand::Function(symbol)
        } else {
            MirOperand::Variant(symbol)
        }
    }

    fn lower_path(&mut self, resolved: &Option<ResolvedPath>, span: TextRange) -> (r: MirOperand)
        requires
            old(self).wf(),
        ensures
            final(self).step(old(self)),
            final(self).in_place(old(self)),
            operand_ok(r, final(self).locals@.len() as int),
            match *resolved {
                Some(ResolvedPath::Local(local)) => if unmapped(old(self).local_map@, local) {
                    r matches MirOperand::Copy(MirPlace::Local(t)) && t@ == old(self).locals@.len()
                        && final(self).locals@.len() == old(self).locals@.len() + 1
                } else {
                    r matches MirOperand::Copy(MirPlace::Local(l)) && maps_to(old(self).local_map@, local, l)
                        && *final(self) == *old(self)
                },
                Some(ResolvedPath::Symbol(symbol)) => r == old(self).symbol_operand(symbol) && *final(self)
                    == *old(self),
                _ => r matches MirOperand::Copy(MirPlace::Local(t)) && t@ == old(self).locals@.len()
                    && final(self).locals@.len() == old(self).locals@.len() + 1,
            },
    {
        match resolved {
            Some(ResolvedPath::Local(local)) => match map_get(&self.local_map, *local) {
                Some(l) => MirOperand::Copy(MirPlace::Local(l)),
                None => self.unit_temp(span),
            },
            Some(ResolvedPath::Symbol(symbol)) => self.lower_symbol_operand(*symbol),
            _ => self.unit_temp(span),
        }
    }

    fn lower_symbol_operand(&self, symbol: SymbolId) -> (r: MirOperand)
        ensures
            !(r is Copy),
            r == self.symbol_operand(symbol),
    {
        let symbols = &self.typed.package.symbols;
        if symbol.get() >= symbols.len() {
            return MirOperand::Variant(symbol);
        }
        match symbols[symbol.get()].kind {
            SymbolKind::Function => MirOperand::Function(symbol),
            _ => MirOperand::Variant(symbol),
        }
    }

    fn lower_assignment(&mut self, expr: &HirExpr) -> (r: MirOperand)
        requires
            old(self).wf(),
            *expr is Binary,
        ensures
            final(self).step(old(self)),
            operand_ok(r, final(self).locals@.len() as int),
            r matches MirOperand::Copy(MirPlace::Local(t)) && t@ == final(self).locals@.len() - 1
                && old(self).locals@.len() <= t@,
            final(self).locals@.last().kind == MirLocalKind::Temp,
            final(self).locals@.last().ty == last_expr_type(
                old(self).typed.type_table.expressions@,
                old(self).function.name@,
                hir_expr_span(*expr),
                old(self).typed.type_table.expressions@.len() as int,
            ),
            final(self).blocks@[final(self).current@ as int].statements@.len() > 0,
            final(self).blocks@[final(self).current@ as int].statements@.last() == (MirStatement::Assign {
                place: MirPlace::Local(r->Copy_0->Local_0),
                value: MirRvalue::Use(MirOperand::Const(MirConstant::Unit)),
                span: hir_expr_span(*expr),
            }),
        decreases expr, 5nat,
    {
        match expr {
            HirExpr::Binary { left, right, span, .. } => {
                let value = self.lower_expr(right);
                match &**left {
                    HirExpr::Path { resolved: Some(ResolvedPath::Local(local)), .. } => {
                        if let Some(l) = map_get(&self.local_map, *local) {
                            self.push_assign(MirPlace::Local(l), MirRvalue::Use(value), *span);
                        }
                    },
                    _ => {
                        self.lower_expr(left);
                    },
                }
                let ty = self.expr_type(expr);
                let temp = self.alloc_temp("assign", ty, *span);
                self.push_assign(
                    MirPlace::Local(temp),
                    MirRvalue::Use(MirOperand::Const(MirConstant::Unit)),
                    *span,
                );
                MirOperand::Copy(MirPlace::Local(temp))
            },
            _ => vstd::pervasive::unreached(),
        }
    }

    /// What an `if` leaves, with lowering continuing in the join block `n + 2`: some earlier
    /// block branches to the then block `n` and the else block `n + 1`; the join block is empty;
    /// the then path, and with an `else` the else path, ends in a terminated block (the branch
    /// block itself or a block lowered after the join block); and without an `else`, block
    /// `n + 1` assigns unit to the result and goes to the join block.
    spec fn if_lowered(&self, has_else: bool, span: TextRange, result: MirLocalId) -> bool {
        let n = self.current@ - 2;
        &&& 0 <= n
        &&& n + 2 < self.blocks@.len()
        &&& self.blocks@[n + 2].statements@.len() == 0
        &&& self.blocks@[n + 2].terminator is None
        &&& exists|c: int| 0 <= c < n && #[trigger] is_if_branch(self.blocks@[c].terminator, n, span)
        &&& exists|t: int| (t == n || n + 3 <= t < self.blocks@.len()) && (#[trigger] self.blocks@[t]).terminator is Some
        &&& has_else ==> exists|e: int|
            (e == n + 1 || n + 3 <= e < self.blocks@.len()) && (#[trigger] self.blocks@[e]).terminator is Some
        &&& !has_else ==> {
            &&& self.blocks@[n + 1].statements@ == seq![
                MirStatement::Assign {
                    place: MirPlace::Local(result),
                    value: MirRvalue::Use(MirOperand::Const(MirConstant::Unit)),
                    span,
                },
            ]
            &&& self.blocks@[n + 1].terminator == Some(MirTerminator::Goto { target: BasicBlockId((n + 2) as usize), span })
        }
    }

    fn lower_if(&mut self, expr: &HirExpr) -> (r: MirOperand)
        requires
            old(self).wf(),
            *expr is If,
        ensures
            final(self).step(old(self)),
            operand_ok(r, final(self).locals@.len() as int),
            r matches MirOperand::Copy(MirPlace::Local(t)) && old(self).locals@.len() <= t@ < final(self).locals@.len(),
            r matches MirOperand::Copy(MirPlace::Local(t)) && final(self).if_lowered(
                expr->If_else_branch is Some,
                expr->If_span,
                t,
            ),
            simple_if(*expr) ==> (r matches MirOperand::Copy(MirPlace::Local(t)) && final(self).simple_if_lowered(
                old(self),
                expr->If_span,
                t,
            )),
        decreases expr, 5nat,
    {
        match expr {
            HirExpr::If { condition, then_block, else_branch, span } => {
                let cond = self.lower_expr(condition);
                let ghost s0 = *self;
                let ty = self.expr_type(expr);
                let result = self.alloc_temp("if", ty, *span);
                let ghost s1 = *self;
                let ghost n = s1.blocks@.len() as int;
                let then_target = self.new_block(then_block.span);
                let else_span = match else_branch {
                    Some(branch) => expr_span(branch),
                    None => *span,
                };
                let else_target = self.new_block(else_span);
                let join_target = self.new_block(*span);
                self.set_terminator(
                    MirTerminator::Branch { condition: cond, then_target, else_target, span: *span },
                );
                let ghost s2 = *self;
                proof {
                    assert(s1.wf());
                    assert(is_if_branch(s2.blocks@[s1.current@ as int].terminator, n, *span));
                }
                self.current = then_target;
                let ghost s3 = *self;
                match self.lower_block(then_block) {
                    Some(value) => {
                        self.assign_result_and_goto(result, value, join_target, then_block.span);
                    },
                    None => {
                        if !self.current_is_terminated() {
                            self.assign_result_and_goto(
                                result,
                                MirOperand::Const(MirConstant::Unit),
                                join_target,
                                then_block.span,
                            );
                        }
                    },
                }
                let ghost t_end = self.current@ as int;
                let ghost s4 = *self;
                self.current = else_target;
                let ghost s5 = *self;
                match else_branch {
                    Some(branch) => {
                        proof {
                            assert(decreases_to!(*expr => (*expr)->If_else_branch));
                        }
                        let value = self.lower_expr(branch);
                        if !self.current_is_terminated() {
                            self.assign_result_and_goto(result, value, join_target, expr_span(branch));
                        }
                    },
                    None => {
                        self.assign_result_and_goto(
                            result,
                            MirOperand::Const(MirConstant::Unit),
                            join_target,
                            *span,
                        );
                    },
                }
                let ghost e_end = self.current@ as int;
                let ghost s6 = *self;
                self.current = join_target;
                proof {
                    let c = s1.current@ as int;
                    assert(s1.wf());
                    assert(c < n);
                    assert(self.blocks@[c] == s2.blocks@[c]);
                    assert(is_if_branch(self.blocks@[c].terminator, n, *span));
                    assert(self.blocks@[n + 2] == s2.blocks@[n + 2]);
                    assert(t_end == n || t_end >= n + 3);
                    assert(s4.blocks@[t_end].terminator is Some);
                    assert(self.blocks@[t_end] == s4.blocks@[t_end]);
                    assert(e_end == n + 1 || e_end >= n + 3);
                    assert(self.blocks@[e_end].terminator is Some);
                    if else_branch is None {
                        assert(s5.blocks@[n + 1] == s2.blocks@[n + 1]);
                        assert(self.blocks@[n + 1].statements@ =~= seq![
                            MirStatement::Assign {
                                place: MirPlace::Local(result),
                                value: MirRvalue::Use(MirOperand::Const(MirConstant::Unit)),
                                span: *span,
                            },
                        ]);
                    }
                    assert(self.if_lowered(else_branch is Some, *span, result));
                    if simple_if(*expr) {
                        assert(s0.in_place(old(self)));
                        assert(n == old(self).blocks@.len());
                        assert(s1.current == old(self).current);
                        assert(t_end == n);
                        assert(branch_joined(s4.blocks@[n], result, n + 2));
                        assert(self.blocks@[n] == s4.blocks@[n]);
                        assert(e_end == n + 1);
                        assert(branch_joined(self.blocks@[n + 1], result, n + 2));
                        assert(self.simple_if_lowered(old(self), *span, result));
                    }
                }
                MirOperand::Copy(MirPlace::Local(result))
            },
            _ => vstd::pervasive::unreached(),
        }
    }

    fn lower_match(&mut self, expr: &HirExpr) -> (r: MirOperand)
        requires
            old(self).wf(),
            *expr is Match,
        ensures
            final(self).step(old(self)),
            operand_ok(r, final(self).locals@.len() as int),
            r matches MirOperand::Copy(MirPlace::Local(t)) && old(self).locals@.len() <= t@ < final(self).locals@.len(),
        decreases expr, 5nat,
    {
        match expr {
            HirExpr::Match { scrutinee, arms, span } => {
                let scrutinee_op = self.lower_expr(scrutinee);
                let ty = self.expr_type(expr);
                let result = self.alloc_temp("match", ty, *span);
                let join_target = self.new_block(*span);
                let mut arm_blocks: Vec<BasicBlockId> = Vec::new();
                let mut targets: Vec<MirMatchTarget> = Vec::new();
                let mut i: usize = 0;
                while i < arms.len()
                    invariant
                        self.step(old(self)),
                        result@ < self.locals@.len(),
                        join_target@ < self.blocks@.len(),
                        operand_ok(scrutinee_op, self.locals@.len() as int),
                        arm_blocks@.len() == i,
                        i <= arms@.len(),
                        forall|k: int| 0 <= k < i ==> (#[trigger] arm_blocks@[k])@ < self.blocks@.len(),
                        forall|k: int| 0 <= k < i ==> (#[trigger] arm_blocks@[k])@ >= old(self).blocks@.len(),
                        join_target@ >= old(self).blocks@.len(),
                        forall|k: int| 0 <= k < targets@.len() ==> (#[trigger] targets@[k]).target@ < self.blocks@.len(),
                    decreases arms@.len() - i,
                {
                    let b = self.new_block(arms[i].span);
                    arm_blocks.push(b);
                    targets.push(MirMatchTarget { pattern: branch_pattern(&arms[i].pattern), target: b });
                    i = i + 1;
                }
                let scrutinee_copy = copy_operand(&scrutinee_op);
                self.set_terminator(
                    MirTerminator::Match { scrutinee: scrutinee_copy, targets, span: *span },
                );
                let mut j: usize = 0;
                while j < arms.len()
                    invariant
                        self.step(old(self)),
                        result@ < self.locals@.len(),
                        join_target@ < self.blocks@.len(),
                        operand_ok(scrutinee_op, self.locals@.len() as int),
                        arm_blocks@.len() == arms@.len(),
                        forall|k: int| 0 <= k < arms@.len() ==> (#[trigger] arm_blocks@[k])@ < self.blocks@.len(),
                        forall|k: int| 0 <= k < arms@.len() ==> (#[trigger] arm_blocks@[k])@ >= old(self).blocks@.len(),
                        join_target@ >= old(self).blocks@.len(),
                        *expr == (HirExpr::Match { scrutinee: *scrutinee, arms: *arms, span: *span }),
                    decreases arms@.len() - j,
                {
                    self.current = arm_blocks[j];
                    let arm = &arms[j];
                    self.bind_match_pattern(&arm.pattern, &scrutinee_op);
                    proof {
                        assert(decreases_to!(*expr => (*expr)->Match_arms));
                        assert((*expr)->Match_arms == *arms);
                        assert(decreases_to!(*arms => arms@));
                        assert(decreases_to!(arms@ => arms@[j as int]));
                        assert(decreases_to!(arms@[j as int] => arms@[j as int].expr));
                    }
                    let value = self.lower_expr(&arm.expr);
                    if !self.current_is_terminated() {
                        self.assign_result_and_goto(result, value, join_target, arm.span);
                    }
                    j = j + 1;
                }
                self.current = join_target;
                MirOperand::Copy(MirPlace::Local(result))
            },
            _ => vstd::pervasive::unreached(),
        }
    }

    fn bind_match_pattern(&mut self, pattern: &HirPattern, scrutinee: &MirOperand)
        requires
            old(self).wf(),
            operand_ok(*scrutinee, old(self).locals@.len() as int),
        ensures
            final(self).step(old(self)),
            final(self).locals@.len() == old(self).locals@.len(),
            final(self).blocks@.len() == old(self).blocks@.len(),
            final(self).current == old(self).current,
            match *pattern {
                HirPattern::Binding { local, span, .. } => if unmapped(old(self).local_map@, local) {
                    *final(self) == *old(self)
                } else {
                    exists|l: MirLocalId, v: MirOperand|
                        #[trigger] maps_to(old(self).local_map@, local, l) && #[trigger] operand_text(v) == operand_text(
                            *scrutinee,
                        ) && final(self).blocks@[old(self).current@ as int].statements@ == old(self).blocks@[old(self).current@ as int].statements@.push(
                            MirStatement::Assign { place: MirPlace::Local(l), value: MirRvalue::Use(v), span },
                        )
                },
                _ => *final(self) == *old(self),
            },
    {
        if let HirPattern::Binding { local, span, .. } = pattern {
            if let Some(l) = map_get(&self.local_map, *local) {
                let value = copy_operand(scrutinee);
                self.push_assign(MirPlace::Local(l), MirRvalue::Use(value), *span);
            }
        }
    }

    /// The `Ok` and `Err` variants of the `Result` type recorded for `expr`, when both exist.
    spec fn try_variants(&self, expr: HirExpr) -> Option<(SymbolId, SymbolId)> {
        if exists|ok: SymbolId, err: SymbolId| #[trigger] self.try_variants_are(expr, ok, err) {
            let (ok, err) = choose|ok: SymbolId, err: SymbolId| #[trigger] self.try_variants_are(expr, ok, err);
            Some((ok, err))
        } else {
            None
        }
    }

    spec fn try_variants_are(&self, expr: HirExpr, ok: SymbolId, err: SymbolId) -> bool {
        self.result_type_of(expr) matches Some((_, _, symbol)) && self.named_variant(symbol, "Ok"@, Some(ok))
            && self.named_variant(symbol, "Err"@, Some(err))
    }

    proof fn lemma_named_variant_unique(&self, symbol: SymbolId, name: Seq<char>, a: SymbolId, b: SymbolId)
        requires
            self.named_variant(symbol, name, Some(a)),
            self.named_variant(symbol, name, Some(b)),
        ensures
            a == b,
    {
        let symbols = self.typed.package.symbols@;
        let item = symbols[symbol@ as int].item->Some_0;
        let i = choose|i: int|
            0 <= i < symbols.len() && Self::is_variant_named(#[trigger] symbols[i], item, name) && symbols[i].id == a
                && forall|j: int| 0 <= j < i ==> !Self::is_variant_named(symbols[j], item, name);
        let k = choose|k: int|
            0 <= k < symbols.len() && Self::is_variant_named(#[trigger] symbols[k], item, name) && symbols[k].id == b
                && forall|j: int| 0 <= j < k ==> !Self::is_variant_named(symbols[j], item, name);
        if i < k {
            assert(!Self::is_variant_named(symbols[i], item, name));
        } else if k < i {
            assert(!Self::is_variant_named(symbols[k], item, name));
        }
    }

    /// What a `?` leaves after lowering its operand: three new blocks `n`, `n + 1` and `n + 2`,
    /// lowering continuing in the empty block `n + 2`, and the result a copy of the local that
    /// block `n` fills. With `Ok` and `Err` variants, some earlier block ends in the match that
    /// enters the `?`, block `n` projects the `Ok` payload and goes on, and block `n + 1` returns
    /// the `Err` payload wrapped again; without them, that block goes to block `n`, which copies
    /// the operand and goes on, and block `n + 1` stays empty.
    spec fn try_lowered(&self, variants: Option<(SymbolId, SymbolId)>, span: TextRange, ok: MirLocalId) -> bool {
        let n = self.blocks@.len() - 3;
        &&& self.blocks@.len() >= 3
        &&& self.current@ == n + 2
        &&& self.blocks@[n + 2].statements@.len() == 0
        &&& self.blocks@[n + 2].terminator is None
        &&& self.blocks@[n].terminator == Some(MirTerminator::Goto { target: BasicBlockId((n + 2) as usize), span })
        &&& match variants {
            Some((okv, errv)) => self.try_some_lowered(okv, errv, span, ok),
            None => self.try_none_lowered(span, ok),
        }
    }

    /// The `?` blocks when the operand's type has `Ok` and `Err` variants: an earlier block ends
    /// in the match that enters the `?`, block `n` projects the `Ok` payload into `ok`, and block
    /// `n + 1` returns the `Err` payload wrapped again.
    spec fn try_some_lowered(&self, okv: SymbolId, errv: SymbolId, span: TextRange, ok: MirLocalId) -> bool {
        let n = self.blocks@.len() - 3;
        exists|b: int, v: MirOperand|
            0 <= b < n && #[trigger] is_try_match(self.blocks@[b].terminator, v, okv, errv, n, span)
                && self.blocks@[n].statements@.len() == 1 && (self.blocks@[n].statements@[0] matches MirStatement::Assign {
                place: MirPlace::Local(p),
                value: MirRvalue::ProjectVariant { source, variant, field },
                span: s,
            } && p == ok && operand_text(source) == operand_text(v) && variant == okv && field == 0 && s == span)
                && is_try_err_block(self.blocks@[n + 1], v, errv, span)
    }

    /// The `?` blocks without those variants: an earlier block goes to block `n`, which copies
    /// the operand into `ok`, and block `n + 1` stays empty.
    spec fn try_none_lowered(&self, span: TextRange, ok: MirLocalId) -> bool {
        let n = self.blocks@.len() - 3;
        &&& exists|b: int|
            0 <= b < n && #[trigger] self.blocks@[b].terminator == Some(
                MirTerminator::Goto { target: BasicBlockId(n as usize), span },
            )
        &&& self.blocks@[n].statements@.len() == 1
        &&& self.blocks@[n].statements@[0] matches MirStatement::Assign {
            place: MirPlace::Local(p),
            value: MirRvalue::Use(_),
            span: s,
        } && p == ok && s == span
        &&& self.blocks@[n + 1].statements@.len() == 0
        &&& self.blocks@[n + 1].terminator is None
    }

    fn lower_try(&mut self, expr: &HirExpr) -> (r: MirOperand)
        requires
            old(self).wf(),
            *expr is Try,
        ensures
            final(self).step(old(self)),
            operand_ok(r, final(self).locals@.len() as int),
            r matches MirOperand::Copy(MirPlace::Local(t)) && old(self).locals@.len() <= t@ < final(self).locals@.len(),
            r matches MirOperand::Copy(MirPlace::Local(t)) && final(self).try_lowered(
                old(self).try_variants(*expr->Try_expr),
                expr->Try_span,
                t,
            ),
        decreases expr, 5nat,
    {
        match expr {
            HirExpr::Try { expr: inner, span } => {
                let result_value = self.lower_expr(inner);
                let ghost s1 = *self;
                let ghost n = s1.blocks@.len() as int;
                let ok_target = self.new_block(*span);
                let err_target = self.new_block(*span);
                let continue_target = self.new_block(*span);
                let ty = self.expr_type(expr);
                let ok_temp = self.alloc_temp("try_ok", ty, *span);
                let ghost s2 = *self;
                let shape = self.result_shape_for_expr(inner);
                proof {
                    assert(self.result_type_of(**inner) == old(self).result_type_of(**inner));
                    match shape {
                        Some((_, _, okv, errv)) => {
                            assert(old(self).try_variants_are(**inner, okv, errv));
                            let (a, b) = choose|a: SymbolId, b: SymbolId| #[trigger] old(self).try_variants_are(**inner, a, b);
                            let symbol = old(self).result_type_of(**inner)->Some_0.2;
                            old(self).lemma_named_variant_unique(symbol, "Ok"@, a, okv);
                            old(self).lemma_named_variant_unique(symbol, "Err"@, b, errv);
                            assert(old(self).try_variants(**inner) == Some((okv, errv)));
                        },
                        None => {
                            if exists|a: SymbolId, b: SymbolId| #[trigger] old(self).try_variants_are(**inner, a, b) {
                                let (a, b) = choose|a: SymbolId, b: SymbolId| #[trigger] old(self).try_variants_are(**inner, a, b);
                                let symbol = old(self).result_type_of(**inner)->Some_0.2;
                                let symbols = old(self).typed.package.symbols@;
                                let item = symbols[symbol@ as int].item->Some_0;
                                if old(self).named_variant(symbol, "Ok"@, None) {
                                    let i = choose|i: int|
                                        0 <= i < symbols.len() && Self::is_variant_named(#[trigger] symbols[i], item, "Ok"@)
                                            && symbols[i].id == a && forall|j: int|
                                            0 <= j < i ==> !Self::is_variant_named(symbols[j], item, "Ok"@);
                                    assert(!Self::is_variant_named(symbols[i], item, "Ok"@));
                                } else {
                                    let i = choose|i: int|
                                        0 <= i < symbols.len() && Self::is_variant_named(#[trigger] symbols[i], item, "Err"@)
                                            && symbols[i].id == b && forall|j: int|
                                            0 <= j < i ==> !Self::is_variant_named(symbols[j], item, "Err"@);
                                    assert(!Self::is_variant_named(symbols[i], item, "Err"@));
                                }
                            }
                            assert(old(self).try_variants(**inner) is None);
                        },
                    }
                }
                match shape {
                    None => {
                        self.set_terminator(MirTerminator::Goto { target: ok_target, span: *span });
                        let ghost s3 = *self;
                        self.current = ok_target;
                        self.assign_result_and_goto(ok_temp, result_value, continue_target, *span);
                        self.current = continue_target;
                        proof {
                            let c = s1.current@ as int;
                            assert(self.blocks@[c] == s3.blocks@[c]);
                            assert(self.blocks@[c].terminator == Some(
                                MirTerminator::Goto { target: BasicBlockId(n as usize), span: *span },
                            ));
                            assert(self.blocks@[n + 1] == s2.blocks@[n + 1]);
                            assert(self.blocks@[n + 2] == s2.blocks@[n + 2]);
                            assert(s1.wf());
                            assert(0 <= c < n);
                        }
                        MirOperand::Copy(MirPlace::Local(ok_temp))
                    },
                    Some((_, err_ty, ok_variant, err_variant)) => {
                        let mut targets: Vec<MirMatchTarget> = Vec::new();
                        targets.push(
                            MirMatchTarget { pattern: MirBranchPattern::Variant(ok_variant), target: ok_target },
                        );
                        targets.push(
                            MirMatchTarget { pattern: MirBranchPattern::Variant(err_variant), target: err_target },
                        );
                        let scrutinee = copy_operand(&result_value);
                        proof {
                            assert(targets@ =~= seq![
                                MirMatchTarget { pattern: MirBranchPattern::Variant(ok_variant), target: BasicBlockId(n as usize) },
                                MirMatchTarget {
                                    pattern: MirBranchPattern::Variant(err_variant),
                                    target: BasicBlockId((n + 1) as usize),
                                },
                            ]);
                        }
                        self.set_terminator(MirTerminator::Match { scrutinee, targets, span: *span });
                        let ghost s3 = *self;
                        self.current = ok_target;
                        let source = copy_operand(&result_value);
                        self.push_assign(
                            MirPlace::Local(ok_temp),
                            MirRvalue::ProjectVariant { source, variant: ok_variant, field: 0 },
                            *span,
                        );
                        self.set_terminator(MirTerminator::Goto { target: continue_target, span: *span });
                        self.current = err_target;
                        let err_temp = self.alloc_temp("try_err", Some(err_ty), *span);
                        self.push_assign(
                            MirPlace::Local(err_temp),
                            MirRvalue::ProjectVariant { source: result_value, variant: err_variant, field: 0 },
                            *span,
                        );
                        let return_ty = self.return_type_of_current_function();
                        let return_temp = self.alloc_temp("try_return", return_ty, *span);
                        let mut fields: Vec<MirOperand> = Vec::new();
                        fields.push(MirOperand::Copy(MirPlace::Local(err_temp)));
                        self.push_assign(
                            MirPlace::Local(return_temp),
                            MirRvalue::AggregateVariant { variant: err_variant, fields },
                            *span,
                        );
                        self.set_terminator(
                            MirTerminator::Return {
                                value: Some(MirOperand::Copy(MirPlace::Local(return_temp))),
                                span: *span,
                            },
                        );
                        self.current = continue_target;
                        proof {
                            let c = s1.current@ as int;
                            assert(self.blocks@[c] == s3.blocks@[c]);
                            assert(is_try_match(self.blocks@[c].terminator, result_value, ok_variant, err_variant, n, *span));
                            assert(self.blocks@[n + 2] == s2.blocks@[n + 2]);
                            assert(is_try_err_block(self.blocks@[n + 1], result_value, err_variant, *span));
                            assert(self.blocks@.len() == n + 3);
                            assert(s1.wf());
                            assert(0 <= c < n);
                            assert(self.current@ == n + 2);
                            assert(self.blocks@[n].statements@.len() == 1);
                            assert(self.blocks@[n].terminator == Some(
                                MirTerminator::Goto { target: BasicBlockId((n + 2) as usize), span: *span },
                            ));
                            assert(self.blocks@[n].statements@[0] matches MirStatement::Assign {
                                place: MirPlace::Local(p),
                                value: MirRvalue::ProjectVariant { source, variant, field },
                                span: s,
                            } && p == ok_temp && operand_text(source) == operand_text(result_value) && variant == ok_variant && field == 0 && s == *span);
                            let nn = self.blocks@.len() - 3;
                            assert(nn == n);
                            assert(0 <= c < nn && is_try_match(self.blocks@[c].terminator, result_value, ok_variant, err_variant, nn, *span)
                                && self.blocks@[nn].statements@.len() == 1 && (self.blocks@[nn].statements@[0] matches MirStatement::Assign {
                                place: MirPlace::Local(p),
                                value: MirRvalue::ProjectVariant { source, variant, field },
                                span: s,
                            } && p == ok_temp && operand_text(source) == operand_text(result_value) && variant == ok_variant && field == 0 && s == *span)
                                && is_try_err_block(self.blocks@[nn + 1], result_value, err_variant, *span));
                            assert(self.blocks@[nn + 2].statements@.len() == 0);
                            assert(self.blocks@[nn + 2].terminator is None);
                            assert(self.blocks@[nn].terminator == Some(MirTerminator::Goto { target: BasicBlockId((nn + 2) as usize), span: *span }));
                            assert(self.current@ == nn + 2);
                            assert(self.try_some_lowered(ok_variant, err_variant, *span, ok_temp));
                            assert(self.try_lowered(Some((ok_variant, err_variant)), *span, ok_temp));
                        }
                        MirOperand::Copy(MirPlace::Local(ok_temp))
                    },
                }
            },
            _ => vstd::pervasive::unreached(),
        }
    }

    /// The argument types and symbol of the expression's recorded type, when it is a `Result`
    /// with two arguments.
    spec fn result_type_of(&self, expr: HirExpr) -> Option<(TypeId, TypeId, SymbolId)> {
        match last_expr_type(
            self.typed.type_table.expressions@,
            self.function.name@,
            hir_expr_span(expr),
            self.typed.type_table.expressions@.len() as int,
        ) {
            None => None,
            Some(t) => if t@ < self.typed.type_table.types@.len() {
                match self.typed.type_table.types@[t@ as int] {
                    TypeKind::Nominal { symbol, args } => if args@.len() == 2 && symbol@
                        < self.typed.package.symbols@.len()
                        && self.typed.package.symbols@[symbol@ as int].path@.len() > 0
                        && self.typed.package.symbols@[symbol@ as int].path@.last()@ == "Result"@ {
                        Some((args@[0], args@[1], symbol))
                    } else {
                        None
                    },
                    _ => None,
                }
            } else {
                None
            },
        }
    }

    fn result_shape_for_expr(&self, expr: &HirExpr) -> (r: Option<(TypeId, TypeId, SymbolId, SymbolId)>)
        ensures
            r matches Some((ok_ty, err_ty, ok, err)) ==> self.result_type_of(*expr) matches Some((a, b, symbol))
                && a == ok_ty && b == err_ty && self.named_variant(symbol, "Ok"@, Some(ok))
                && self.named_variant(symbol, "Err"@, Some(err)),
            r is None ==> (self.result_type_of(*expr) matches Some((_, _, symbol)) ==> (self.named_variant(
                symbol,
                "Ok"@,
                None,
            ) || self.named_variant(symbol, "Err"@, None))),
    {
        proof {
            reveal_strlit("Result");
            reveal_strlit("Ok");
            reveal_strlit("Err");
        }
        let ty = match self.expr_type(expr) {
            Some(t) => t,
            None => {
                return None;
            },
        };
        let types = &self.typed.type_table.types;
        if ty.get() >= types.len() {
            return None;
        }
        match &types[ty.get()] {
            TypeKind::Nominal { symbol, args } => {
                if args.len() != 2 || !self.symbol_named(*symbol, "Result") {
                    return None;
                }
                let ok_variant = match self.variant_named(*symbol, "Ok") {
                    Some(v) => v,
                    None => {
                        return None;
                    },
                };
                let err_variant = match self.variant_named(*symbol, "Err") {
                    Some(v) => v,
                    None => {
                        return None;
                    },
                };
                Some((args[0], args[1], ok_variant, err_variant))
            },
            _ => None,
        }
    }

    fn return_type_of_current_function(&self) -> (r: Option<TypeId>)
        ensures
            r == match self.item_return_type() {
                Some(t) => Some(t),
                None => match self.function.body {
                    Some(body) => last_expr_type(
                        self.typed.type_table.expressions@,
                        self.function.name@,
                        body.span,
                        self.typed.type_table.expressions@.len() as int,
                    ),
                    None => None,
                },
            },
    {
        match self.return_type_from_item() {
            Some(t) => Some(t),
            None => match &self.function.body {
                Some(body) => expr_type_of(self.typed, &self.function.name, body.span),
                None => None,
            },
        }
    }

    fn symbol_named(&self, symbol: SymbolId, name: &str) -> (r: bool)
        ensures
            r == (symbol@ < self.typed.package.symbols@.len() && self.typed.package.symbols@[symbol@ as int].path@.len()
                > 0 && self.typed.package.symbols@[symbol@ as int].path@.last()@ == name@),
    {
        let symbols = &self.typed.package.symbols;
        if symbol.get() >= symbols.len() {
            return false;
        }
        let path = &symbols[symbol.get()].path;
        if path.len() == 0 {
            return false;
        }
        str_eq(path[path.len() - 1].as_str(), name)
    }

    /// Symbol `s` is a variant of item `item` whose last path segment is `name`.
    spec fn is_variant_named(s: Symbol, item: ItemId, name: Seq<char>) -> bool {
        &&& s.kind == SymbolKind::Variant
        &&& s.item matches Some(x) && x@ == item@
        &&& s.path@.len() > 0
        &&& s.path@.last()@ == name
    }

    /// `r` is the first variant named `name` of the item that `enum_symbol` belongs to.
    spec fn named_variant(&self, enum_symbol: SymbolId, name: Seq<char>, r: Option<SymbolId>) -> bool {
        let symbols = self.typed.package.symbols@;
        if enum_symbol@ >= symbols.len() || symbols[enum_symbol@ as int].item is None {
            r is None
        } else {
            let item = symbols[enum_symbol@ as int].item->Some_0;
            match r {
                None => forall|i: int| 0 <= i < symbols.len() ==> !Self::is_variant_named(#[trigger] symbols[i], item, name),
                Some(v) => exists|i: int|
                    0 <= i < symbols.len() && Self::is_variant_named(#[trigger] symbols[i], item, name) && symbols[i].id == v
                        && forall|j: int| 0 <= j < i ==> !Self::is_variant_named(symbols[j], item, name),
            }
        }
    }

    fn variant_named(&self, enum_symbol: SymbolId, name: &str) -> (r: Option<SymbolId>)
        ensures
            self.named_variant(enum_symbol, name@, r),
    {
        let symbols = &self.typed.package.symbols;
        if enum_symbol.get() >= symbols.len() {
            return None;
        }
        let item = match symbols[enum_symbol.get()].item {
            Some(item) => item,
            None => {
                return None;
            },
        };
        let mut i: usize = 0;
        while i < symbols.len()
            invariant
                i <= symbols@.len(),
                symbols@ == self.typed.package.symbols@,
                enum_symbol@ < symbols@.len(),
                symbols@[enum_symbol@ as int].item == Some(item),
                forall|j: int| 0 <= j < i ==> !Self::is_variant_named(#[trigger] symbols@[j], item, name@),
            decreases symbols@.len() - i,
        {
            let s = &symbols[i];
            let same_item = match s.item {
                Some(x) => x.get() == item.get(),
                None => false,
            };
            if s.kind == SymbolKind::Variant && same_item && s.path.len() > 0 && str_eq(
                s.path[s.path.len() - 1].as_str(),
                name,
            ) {
                proof {
                    let all = self.typed.package.symbols@;
                    assert(all[enum_symbol@ as int].item == Some(item));
                    assert(Self::is_variant_named(all[i as int], item, name@));
                    assert(all[i as int].id == s.id);
                    assert(forall|j: int| 0 <= j < i ==> !Self::is_variant_named(#[trigger] all[j], item, name@));
                }
                return Some(s.id);
            }
            i = i + 1;
        }
        None
    }

    fn assign_result_and_goto(&mut self, result: MirLocalId, value: MirOperand, target: BasicBlockId, span: TextRange)
        requires
            old(self).wf(),
            result@ < old(self).locals@.len(),
            operand_ok(value, old(self).locals@.len() as int),
            target@ < old(self).blocks@.len(),
        ensures
            final(self).step(old(self)),
            final(self).locals@.len() == old(self).locals@.len(),
            final(self).blocks@.len() == old(self).blocks@.len(),
            final(self).current == old(self).current,
            final(self).locals@ == old(self).locals@,
            final(self).local_map@ == old(self).local_map@,
            final(self).blocks@[old(self).current@ as int].statements@ == old(self).blocks@[old(self).current@ as int].statements@.push(
                MirStatement::Assign { place: MirPlace::Local(result), value: MirRvalue::Use(value), span },
            ),
            final(self).blocks@[old(self).current@ as int].terminator == Some(MirTerminator::Goto { target, span }),
            forall|b: int|
                0 <= b < old(self).blocks@.len() && b != old(self).current@ ==> #[trigger] final(self).blocks@[b] == old(self).blocks@[b],
    {
        self.push_assign(MirPlace::Local(result), MirRvalue::Use(value), span);
        self.set_terminator(MirTerminator::Goto { target, span });
    }

    fn unit_temp(&mut self, span: TextRange) -> (r: MirOperand)
        requires
            old(self).wf(),
        ensures
            final(self).step(old(self)),
            operand_ok(r, final(self).locals@.len() as int),
            r matches MirOperand::Copy(MirPlace::Local(t)) && t@ == old(self).locals@.len(),
            final(self).locals@.len() == old(self).locals@.len() + 1,
            final(self).locals@.last().kind == MirLocalKind::Temp,
            final(self).locals@.last().ty is None,
            final(self).blocks@.len() == old(self).blocks@.len(),
            final(self).current == old(self).current,
            final(self).in_place(old(self)),
            final(self).blocks@[old(self).current@ as int].statements@ == old(self).blocks@[old(self).current@ as int].statements@.push(
                MirStatement::Assign {
                    place: MirPlace::Local(r->Copy_0->Local_0),
                    value: MirRvalue::Use(MirOperand::Const(MirConstant::Unit)),
                    span,
                },
            ),
    {
        let temp = self.alloc_temp("unit", None, span);
        self.push_assign(
            MirPlace::Local(temp),
            MirRvalue::Use(MirOperand::Const(MirConstant::Unit)),
            span,
        );
        MirOperand::Copy(MirPlace::Local(temp))
    }
}

} // verus!
