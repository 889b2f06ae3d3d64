//! Syntax tree produced by the parser, with its stable text dump.
use vstd::prelude::*;
use vstd::string::*;

use crate::source::TextRange;
use crate::text::{decimal, join, owned, push_decimal, push_join, string_views};

verus! {

/// Common AST node behavior.
pub trait AstNode {
    /// Returns the byte range covered by this AST node.
    fn span(&self) -> TextRange;
}

/// Parsed Maodie source file.
#[derive(Debug)]
pub struct AstFile {
    /// Full file span.
    pub span: TextRange,
    /// Optional module declaration.
    pub module: Option<ModuleDecl>,
    /// Import declarations in source order.
    pub imports: Vec<ImportDecl>,
    /// Item declarations in source order.
    pub items: Vec<Item>,
}

/// `module` declaration.
#[derive(Clone, Debug, PartialEq, Eq)]
pub struct ModuleDecl {
    /// Module path.
    pub path: Vec<String>,
    /// Declaration span.
    pub span: TextRange,
}

/// `import` declaration.
#[derive(Clone, Debug, PartialEq, Eq)]
pub struct ImportDecl {
    /// Imported path.
    pub path: Vec<String>,
    /// Declaration span.
    pub span: TextRange,
}

/// Top-level item.
#[derive(Debug)]
pub enum Item {
    /// Function declaration.
    Function(FunctionDecl),
    /// Struct declaration.
    Struct(StructDecl),
    /// Enum declaration.
    Enum(EnumDecl),
    /// Trait declaration.
    Trait(TraitDecl),
    /// Impl declaration.
    Impl(ImplDecl),
}

/// Function declaration or method.
#[derive(Debug)]
pub struct FunctionDecl {
    /// Function name.
    pub name: Option<String>,
    /// Generic parameter names.
    pub generics: Vec<String>,
    /// Parameter list.
    pub params: ParamList,
    /// Optional return type.
    pub return_type: Option<TypeRef>,
    /// Optional function body.
    pub body: Option<BlockExpr>,
    /// Function span.
    pub span: TextRange,
}

/// Function parameter list.
#[derive(Debug)]
pub struct ParamList {
    /// Parameters in source order.
    pub params: Vec<FunctionParam>,
    /// Parameter list span.
    pub span: TextRange,
}

/// Function parameter.
#[derive(Debug)]
pub struct FunctionParam {
    /// Parameter name.
    pub name: Option<String>,
    /// Parameter type.
    pub ty: Option<TypeRef>,
    /// Parameter span.
    pub span: TextRange,
}

/// Struct declaration.
#[derive(Debug)]
pub struct StructDecl {
    /// Struct name.
    pub name: Option<String>,
    /// Generic parameter names.
    pub generics: Vec<String>,
    /// Field declarations.
    pub fields: Vec<FieldDecl>,
    /// Struct span.
    pub span: TextRange,
}

/// Struct field declaration.
#[derive(Debug)]
pub struct FieldDecl {
    /// Field name.
    pub name: Option<String>,
    /// Field type.
    pub ty: Option<TypeRef>,
    /// Field span.
    pub span: TextRange,
}

/// Enum declaration.
#[derive(Debug)]
pub struct EnumDecl {
    /// Enum name.
    pub name: Option<String>,
    /// Generic parameter names.
    pub generics: Vec<String>,
    /// Variants in source order.
    pub variants: Vec<EnumVariant>,
    /// Enum span.
    pub span: TextRange,
}

/// Enum variant declaration.
#[derive(Debug)]
pub struct EnumVariant {
    /// Variant name.
    pub name: Option<String>,
    /// Variant payload types.
    pub fields: Vec<TypeRef>,
    /// Variant span.
    pub span: TextRange,
}

/// Trait declaration.
#[derive(Debug)]
pub struct TraitDecl {
    /// Trait name.
    pub name: Option<String>,
    /// Generic parameter names.
    pub generics: Vec<String>,
    /// Function signatures in source order.
    pub functions: Vec<FunctionDecl>,
    /// Trait span.
    pub span: TextRange,
}

/// Impl declaration.
#[derive(Debug)]
pub struct ImplDecl {
    /// Optional trait path in `impl Trait for Type`.
    pub trait_path: Option<TypeRef>,
    /// Impl target type.
    pub target: Option<TypeRef>,
    /// Methods in source order.
    pub methods: Vec<FunctionDecl>,
    /// Impl span.
    pub span: TextRange,
}

/// Statement inside a block.
#[derive(Debug)]
pub enum Statement {
    /// `let` statement.
    Let(LetStmt),
    /// `return` statement.
    Return {
        /// Optional returned expression.
        expr: Option<Expr>,
        /// Statement span.
        span: TextRange,
    },
    /// Expression statement.
    Expr(Expr),
}

/// `let` statement.
#[derive(Debug)]
pub struct LetStmt {
    /// Whether `mut` appears.
    pub mutable: bool,
    /// Binding name.
    pub name: Option<String>,
    /// Optional type annotation.
    pub ty: Option<TypeRef>,
    /// Optional initializer.
    pub value: Option<Expr>,
    /// Statement span.
    pub span: TextRange,
}

/// Expression node.
#[derive(Debug)]
pub enum Expr {
    /// Missing expression placeholder after a parse error.
    Missing { span: TextRange },
    /// Literal expression.
    Literal { literal: Literal, span: TextRange },
    /// Path expression.
    Path { path: Vec<String>, span: TextRange },
    /// Function call.
    Call {
        /// Callee expression.
        callee: Box<Expr>,
        /// Argument expressions.
        args: Vec<Expr>,
        /// Expression span.
        span: TextRange,
    },
    /// Block expression.
    Block(BlockExpr),
    /// `if` expression.
    If {
        /// Condition expression.
        condition: Box<Expr>,
        /// Then block.
        then_block: BlockExpr,
        /// Optional else branch.
        else_branch: Option<Box<Expr>>,
        /// Expression span.
        span: TextRange,
    },
    /// `match` expression.
    Match {
        /// Matched expression.
        scrutinee: Box<Expr>,
        /// Match arms.
        arms: Vec<MatchArm>,
        /// Expression span.
        span: TextRange,
    },
    /// Binary expression.
    Binary {
        /// Operator.
        op: BinaryOp,
        /// Left expression.
        left: Box<Expr>,
        /// Right expression.
        right: Box<Expr>,
        /// Expression span.
        span: TextRange,
    },
    /// Postfix `?` expression.
    Try {
        /// Inner expression.
        expr: Box<Expr>,
        /// Expression span.
        span: TextRange,
    },
}

/// Block expression.
#[derive(Debug)]
pub struct BlockExpr {
    /// Statements in source order.
    pub statements: Vec<Statement>,
    /// Block span.
    pub span: TextRange,
}

/// Match arm.
#[derive(Debug)]
pub struct MatchArm {
    /// Arm pattern.
    pub pattern: Pattern,
    /// Arm expression.
    pub expr: Expr,
    /// Arm span.
    pub span: TextRange,
}

/// Pattern node.
#[derive(Clone, Debug, PartialEq, Eq)]
pub enum Pattern {
    /// `_`.
    Wildcard { span: TextRange },
    /// Binding name.
    Binding { name: String, span: TextRange },
    /// Literal pattern.
    Literal { literal: Literal, span: TextRange },
    /// Enum variant or path pattern.
    Path { path: Vec<String>, span: TextRange },
}

/// Literal value.
#[derive(Clone, Debug, PartialEq, Eq)]
pub enum Literal {
    /// Integer source text.
    Integer(String),
    /// Bool literal.
    Bool(bool),
    /// String source text, including quotes.
    String(String),
}

/// Binary operator.
#[derive(Clone, Copy, Debug, PartialEq, Eq, Structural)]
pub enum BinaryOp {
    /// `=`
    Assign,
    /// `<`
    Less,
    /// `>`
    Greater,
    /// `+`
    Add,
    /// `-`
    Subtract,
    /// `*`
    Multiply,
    /// `/`
    Divide,
}

/// Type reference.
#[derive(Debug)]
pub struct TypeRef {
    /// Path segments.
    pub path: Vec<String>,
    /// Generic argument types.
    pub generic_args: Vec<TypeRef>,
    /// Type span.
    pub span: TextRange,
}

// ---------------------------------------------------------------------------
// Spans
// ---------------------------------------------------------------------------

/// The span of an expression.
pub open spec fn expr_span(e: Expr) -> TextRange {
    match e {
        Expr::Missing { span } => span,
        Expr::Literal { span, .. } => span,
        Expr::Path { span, .. } => span,
        Expr::Call { span, .. } => span,
        Expr::Block(block) => block.span,
        Expr::If { span, .. } => span,
        Expr::Match { span, .. } => span,
        Expr::Binary { span, .. } => span,
        Expr::Try { span, .. } => span,
    }
}

/// The span of a pattern.
pub open spec fn pattern_span(p: Pattern) -> TextRange {
    match p {
        Pattern::Wildcard { span } => span,
        Pattern::Binding { span, .. } => span,
        Pattern::Literal { span, .. } => span,
        Pattern::Path { span, .. } => span,
    }
}

/// The span of a statement.
pub open spec fn statement_span(s: Statement) -> TextRange {
    match s {
        Statement::Let(l) => l.span,
        Statement::Return { span, .. } => span,
        Statement::Expr(e) => expr_span(e),
    }
}

/// The span of an item.
pub open spec fn item_span(item: Item) -> TextRange {
    match item {
        Item::Function(n) => n.span,
        Item::Struct(n) => n.span,
        Item::Enum(n) => n.span,
        Item::Trait(n) => n.span,
        Item::Impl(n) => n.span,
    }
}

impl Expr {
    /// Returns this expression span.
    pub fn span(&self) -> (r: TextRange)
        ensures
            r == expr_span(*self),
    {
        match self {
            Expr::Missing { span } => *span,
            Expr::Literal { span, .. } => *span,
            Expr::Path { span, .. } => *span,
            Expr::Call { span, .. } => *span,
            Expr::Block(block) => block.span,
            Expr::If { span, .. } => *span,
            Expr::Match { span, .. } => *span,
            Expr::Binary { span, .. } => *span,
            Expr::Try { span, .. } => *span,
        }
    }
}

impl Pattern {
    /// Returns this pattern span.
    pub fn span(&self) -> (r: TextRange)
        ensures
            r == pattern_span(*self),
    {
        match self {
            Pattern::Wildcard { span } => *span,
            Pattern::Binding { span, .. } => *span,
            Pattern::Literal { span, .. } => *span,
            Pattern::Path { span, .. } => *span,
        }
    }
}

impl Statement {
    /// Returns this statement span.
    pub fn span(&self) -> (r: TextRange)
        ensures
            r == statement_span(*self),
    {
        match self {
            Statement::Let(statement) => statement.span,
            Statement::Return { span, .. } => *span,
            Statement::Expr(expr) => expr.span(),
        }
    }
}

impl AstNode for AstFile {
    fn span(&self) -> (r: TextRange)
        ensures
            r == self.span,
    {
        self.span
    }
}

impl AstNode for ModuleDecl {
    fn span(&self) -> (r: TextRange)
        ensures
            r == self.span,
    {
        self.span
    }
}

impl AstNode for ImportDecl {
    fn span(&self) -> (r: TextRange)
        ensures
            r == self.span,
    {
        self.span
    }
}

impl AstNode for Item {
    fn span(&self) -> (r: TextRange)
        ensures
            r == item_span(*self),
    {
        match self {
            Item::Function(node) => node.span,
            Item::Struct(node) => node.span,
            Item::Enum(node) => node.span,
            Item::Trait(node) => node.span,
            Item::Impl(node) => node.span,
        }
    }
}

impl AstNode for FunctionDecl {
    fn span(&self) -> (r: TextRange)
        ensures
            r == self.span,
    {
        self.span
    }
}

impl AstNode for StructDecl {
    fn span(&self) -> (r: TextRange)
        ensures
            r == self.span,
    {
        self.span
    }
}

impl AstNode for EnumDecl {
    fn span(&self) -> (r: TextRange)
        ensures
            r == self.span,
    {
        self.span
    }
}

impl AstNode for TraitDecl {
    fn span(&self) -> (r: TextRange)
        ensures
            r == self.span,
    {
        self.span
    }
}

impl AstNode for ImplDecl {
    fn span(&self) -> (r: TextRange)
        ensures
            r == self.span,
    {
        self.span
    }
}

// ---------------------------------------------------------------------------
// Display text
// ---------------------------------------------------------------------------

/// Path segments joined with `.`.
pub open spec fn path_text(path: Seq<String>) -> Seq<char> {
    join(string_views(path), "."@)
}

/// Source-like display of a type: its path, then its generic arguments in angle brackets.
pub open spec fn type_display(t: TypeRef) -> Seq<char>
    decreases t, 1int,
{
    path_text(t.path@) + if t.generic_args@.len() == 0 {
        Seq::empty()
    } else {
        "<"@ + join(type_displays(t.generic_args@), ", "@) + ">"@
    }
}

/// Displays of a sequence of types.
pub open spec fn type_displays(ts: Seq<TypeRef>) -> Seq<Seq<char>>
    decreases ts, 0int,
{
    if ts.len() == 0 {
        Seq::empty()
    } else {
        type_displays(ts.subrange(0, ts.len() - 1)).push(type_display(ts[ts.len() - 1]))
    }
}

/// Dump text of a literal.
pub open spec fn literal_text(l: Literal) -> Seq<char> {
    match l {
        Literal::Integer(v) => "int("@ + v@ + ")"@,
        Literal::Bool(b) => "bool("@ + (if b {
            "true"@
        } else {
            "false"@
        }) + ")"@,
        Literal::String(v) => "string("@ + v@ + ")"@,
    }
}

/// Source text of a binary operator.
pub open spec fn binary_op_text(op: BinaryOp) -> Seq<char> {
    match op {
        BinaryOp::Assign => "="@,
        BinaryOp::Less => "<"@,
        BinaryOp::Greater => ">"@,
        BinaryOp::Add => "+"@,
        BinaryOp::Subtract => "-"@,
        BinaryOp::Multiply => "*"@,
        BinaryOp::Divide => "/"@,
    }
}

impl TypeRef {
    /// Stable display form.
    pub fn display(&self) -> (r: String)
        ensures
            r@ == type_display(*self),
        decreases self,
    {
        let mut output = String::new();
        push_join(&mut output, &self.path, ".");
        if self.generic_args.len() > 0 {
            let mut args: Vec<String> = Vec::new();
            let mut i: usize = 0;
            while i < self.generic_args.len()
                invariant
                    i <= self.generic_args@.len(),
                    string_views(args@) == type_displays(self.generic_args@.subrange(0, i as int)),
                decreases self.generic_args@.len() - i,
            {
                let shown = self.generic_args[i].display();
                let ghost before = args@;
                args.push(shown);
                proof {
                    let sub = self.generic_args@.subrange(0, i + 1);
                    assert(sub.subrange(0, sub.len() - 1) =~= self.generic_args@.subrange(
                        0,
                        i as int,
                    ));
                    assert(string_views(args@) =~= string_views(before).push(shown@));
                }
                i = i + 1;
            }
            proof {
                assert(self.generic_args@.subrange(0, self.generic_args@.len() as int)
                    =~= self.generic_args@);
            }
            output.append("<");
            push_join(&mut output, &args, ", ");
            output.append(">");
        }
        proof {
            if self.generic_args@.len() == 0 {
                assert(output@ =~= type_display(*self));
            } else {
                assert(output@ =~= type_display(*self));
            }
        }
        output
    }
}

// ---------------------------------------------------------------------------
// Dump
// ---------------------------------------------------------------------------

/// `@start..end`.
pub open spec fn range_text(r: TextRange) -> Seq<char> {
    "@"@ + decimal(r.start as nat) + ".."@ + decimal(r.end as nat)
}

/// A name, or `<missing>` when the parser found none.
pub open spec fn name_text(n: Option<String>) -> Seq<char> {
    match n {
        Some(s) => s@,
        None => "<missing>"@,
    }
}

/// The padding of a child line.
pub open spec fn deeper(pad: Seq<char>) -> Seq<char> {
    pad + "  "@
}

/// Lines of each element in order.
pub open spec fn lines_of<A>(s: Seq<A>, f: spec_fn(A) -> Seq<Seq<char>>) -> Seq<Seq<char>>
    decreases s.len(),
{
    if s.len() == 0 {
        Seq::empty()
    } else {
        lines_of(s.drop_last(), f) + f(s.last())
    }
}

/// The `Generics` line, present when there are generic parameters.
pub open spec fn generics_lines(g: Seq<String>, pad: Seq<char>) -> Seq<Seq<char>> {
    if g.len() == 0 {
        Seq::empty()
    } else {
        seq![pad + "Generics "@ + join(string_views(g), ", "@)]
    }
}

/// The line of a type reference.
pub open spec fn type_line(t: TypeRef, pad: Seq<char>) -> Seq<char> {
    pad + "Type "@ + type_display(t) + " "@ + range_text(t.span)
}

pub open spec fn type_lines_fn(pad: Seq<char>) -> spec_fn(TypeRef) -> Seq<Seq<char>> {
    |t: TypeRef| seq![type_line(t, pad)]
}

/// The line of an optional type.
pub open spec fn opt_type_lines(t: Option<TypeRef>, pad: Seq<char>) -> Seq<Seq<char>> {
    match t {
        Some(t) => seq![type_line(t, pad)],
        None => Seq::empty(),
    }
}

/// A heading line followed by the line of an optional type.
pub open spec fn labeled_type_lines(label: Seq<char>, t: Option<TypeRef>, pad: Seq<char>) -> Seq<
    Seq<char>,
> {
    match t {
        Some(t) => seq![pad + label, type_line(t, deeper(pad))],
        None => Seq::empty(),
    }
}

/// The line of a pattern.
pub open spec fn pattern_line(p: Pattern, pad: Seq<char>) -> Seq<char> {
    match p {
        Pattern::Wildcard { span } => pad + "Pattern _ "@ + range_text(span),
        Pattern::Binding { name, span } => pad + "Pattern Binding "@ + name@ + " "@ + range_text(
            span,
        ),
        Pattern::Literal { literal, span } => pad + "Pattern Literal "@ + literal_text(literal)
            + " "@ + range_text(span),
        Pattern::Path { path, span } => pad + "Pattern Path "@ + path_text(path@) + " "@
            + range_text(span),
    }
}

/// Lines of an expression.
pub open spec fn expr_lines(e: Expr, pad: Seq<char>) -> Seq<Seq<char>>
    decreases e,
{
    match e {
        Expr::Missing { span } => seq![pad + "MissingExpr "@ + range_text(span)],
        Expr::Literal { literal, span } => seq![
            pad + "Literal "@ + literal_text(literal) + " "@ + range_text(span),
        ],
        Expr::Path { path, span } => seq![
            pad + "Path "@ + path_text(path@) + " "@ + range_text(span),
        ],
        Expr::Call { callee, args, span } => seq![
            pad + "Call "@ + range_text(span),
            deeper(pad) + "Callee"@,
        ] + expr_lines(*callee, deeper(deeper(pad))) + args_lines(args@, deeper(pad)),
        Expr::Block(block) => block_lines(block, pad),
        Expr::If { condition, then_block, else_branch, span } => seq![
            pad + "If "@ + range_text(span),
            deeper(pad) + "Condition"@,
        ] + expr_lines(*condition, deeper(deeper(pad))) + seq![deeper(pad) + "Then"@]
            + block_lines(then_block, deeper(deeper(pad))) + match else_branch {
            Some(other) => seq![deeper(pad) + "Else"@] + expr_lines(*other, deeper(deeper(pad))),
            None => Seq::empty(),
        },
        Expr::Match { scrutinee, arms, span } => seq![
            pad + "Match "@ + range_text(span),
            deeper(pad) + "Scrutinee"@,
        ] + expr_lines(*scrutinee, deeper(deeper(pad))) + arms_lines(arms@, deeper(pad)),
        Expr::Binary { op, left, right, span } => seq![
            pad + "Binary "@ + binary_op_text(op) + " "@ + range_text(span),
        ] + expr_lines(*left, deeper(pad)) + expr_lines(*right, deeper(pad)),
        Expr::Try { expr, span } => seq![pad + "Try "@ + range_text(span)] + expr_lines(
            *expr,
            deeper(pad),
        ),
    }
}

/// Lines of call arguments: an `Arg` heading, then the argument.
pub open spec fn args_lines(args: Seq<Expr>, pad: Seq<char>) -> Seq<Seq<char>>
    decreases args,
{
    if args.len() == 0 {
        Seq::empty()
    } else {
        args_lines(args.subrange(0, args.len() - 1), pad) + seq![pad + "Arg"@] + expr_lines(
            args[args.len() - 1],
            deeper(pad),
        )
    }
}

/// Lines of match arms.
pub open spec fn arms_lines(arms: Seq<MatchArm>, pad: Seq<char>) -> Seq<Seq<char>>
    decreases arms,
{
    if arms.len() == 0 {
        Seq::empty()
    } else {
        let arm = arms[arms.len() - 1];
        arms_lines(arms.subrange(0, arms.len() - 1), pad) + seq![
            pad + "Arm "@ + range_text(arm.span),
            pattern_line(arm.pattern, deeper(pad)),
        ] + expr_lines(arm.expr, deeper(pad))
    }
}

/// Lines of a block.
pub open spec fn block_lines(b: BlockExpr, pad: Seq<char>) -> Seq<Seq<char>>
    decreases b,
{
    seq![pad + "Block "@ + range_text(b.span)] + statements_lines(b.statements@, deeper(pad))
}

/// Lines of statements.
pub open spec fn statements_lines(ss: Seq<Statement>, pad: Seq<char>) -> Seq<Seq<char>>
    decreases ss,
{
    if ss.len() == 0 {
        Seq::empty()
    } else {
        statements_lines(ss.subrange(0, ss.len() - 1), pad) + statement_lines(
            ss[ss.len() - 1],
            pad,
        )
    }
}

/// Lines of a statement.
pub open spec fn statement_lines(st: Statement, pad: Seq<char>) -> Seq<Seq<char>>
    decreases st,
{
    match st {
        Statement::Let(l) => seq![
            pad + "Let"@ + (if l.mutable {
                " mut"@
            } else {
                Seq::empty()
            }) + " "@ + name_text(l.name) + " "@ + range_text(l.span),
        ] + labeled_type_lines("Type"@, l.ty, deeper(pad)) + match l.value {
            Some(v) => seq![deeper(pad) + "Value"@] + expr_lines(v, deeper(deeper(pad))),
            None => Seq::empty(),
        },
        Statement::Return { expr, span } => seq![pad + "Return "@ + range_text(span)] + match expr {
            Some(v) => expr_lines(v, deeper(pad)),
            None => Seq::empty(),
        },
        Statement::Expr(e) => expr_lines(e, pad),
    }
}

/// Lines of a function parameter.
pub open spec fn param_lines(p: FunctionParam, pad: Seq<char>) -> Seq<Seq<char>> {
    seq![pad + "Param "@ + name_text(p.name) + " "@ + range_text(p.span)] + opt_type_lines(
        p.ty,
        deeper(pad),
    )
}

pub open spec fn param_lines_fn(pad: Seq<char>) -> spec_fn(FunctionParam) -> Seq<Seq<char>> {
    |p: FunctionParam| param_lines(p, pad)
}

/// Lines of a function.
pub open spec fn function_lines(f: FunctionDecl, pad: Seq<char>) -> Seq<Seq<char>> {
    seq![pad + "Fn "@ + name_text(f.name) + " "@ + range_text(f.span)] + generics_lines(
        f.generics@,
        deeper(pad),
    ) + lines_of(f.params.params@, param_lines_fn(deeper(pad))) + labeled_type_lines(
        "ReturnType"@,
        f.return_type,
        deeper(pad),
    ) + match f.body {
        Some(b) => block_lines(b, deeper(pad)),
        None => Seq::empty(),
    }
}

pub open spec fn function_lines_fn(pad: Seq<char>) -> spec_fn(FunctionDecl) -> Seq<Seq<char>> {
    |f: FunctionDecl| function_lines(f, pad)
}

/// Lines of a struct field.
pub open spec fn field_lines(f: FieldDecl, pad: Seq<char>) -> Seq<Seq<char>> {
    seq![pad + "Field "@ + name_text(f.name) + " "@ + range_text(f.span)] + opt_type_lines(
        f.ty,
        deeper(pad),
    )
}

pub open spec fn field_lines_fn(pad: Seq<char>) -> spec_fn(FieldDecl) -> Seq<Seq<char>> {
    |f: FieldDecl| field_lines(f, pad)
}

/// Lines of an enum variant.
pub open spec fn variant_lines(v: EnumVariant, pad: Seq<char>) -> Seq<Seq<char>> {
    seq![pad + "Variant "@ + name_text(v.name) + " "@ + range_text(v.span)] + lines_of(
        v.fields@,
        type_lines_fn(deeper(pad)),
    )
}

pub open spec fn variant_lines_fn(pad: Seq<char>) -> spec_fn(EnumVariant) -> Seq<Seq<char>> {
    |v: EnumVariant| variant_lines(v, pad)
}

/// Lines of a top-level item.
pub open spec fn item_lines(item: Item, pad: Seq<char>) -> Seq<Seq<char>> {
    match item {
        Item::Function(f) => function_lines(f, pad),
        Item::Struct(s) => seq![pad + "Struct "@ + name_text(s.name) + " "@ + range_text(s.span)]
            + generics_lines(s.generics@, deeper(pad)) + lines_of(
            s.fields@,
            field_lines_fn(deeper(pad)),
        ),
        Item::Enum(e) => seq![pad + "Enum "@ + name_text(e.name) + " "@ + range_text(e.span)]
            + generics_lines(e.generics@, deeper(pad)) + lines_of(
            e.variants@,
            variant_lines_fn(deeper(pad)),
        ),
        Item::Trait(t) => seq![pad + "Trait "@ + name_text(t.name) + " "@ + range_text(t.span)]
            + generics_lines(t.generics@, deeper(pad)) + lines_of(
            t.functions@,
            function_lines_fn(deeper(pad)),
        ),
        Item::Impl(i) => seq![pad + "Impl "@ + range_text(i.span)] + labeled_type_lines(
            "Trait"@,
            i.trait_path,
            deeper(pad),
        ) + labeled_type_lines("Target"@, i.target, deeper(pad)) + lines_of(
            i.methods@,
            function_lines_fn(deeper(pad)),
        ),
    }
}

pub open spec fn item_lines_fn(pad: Seq<char>) -> spec_fn(Item) -> Seq<Seq<char>> {
    |item: Item| item_lines(item, pad)
}

/// The line of a module or import declaration.
pub open spec fn decl_line(head: Seq<char>, path: Seq<String>, span: TextRange, pad: Seq<char>) -> Seq<char> {
    pad + head + path_text(path) + " "@ + range_text(span)
}

pub open spec fn import_lines_fn(pad: Seq<char>) -> spec_fn(ImportDecl) -> Seq<Seq<char>> {
    |i: ImportDecl| seq![decl_line("Import "@, i.path@, i.span, pad)]
}

/// Lines of a whole file dump.
pub open spec fn file_lines(f: AstFile) -> Seq<Seq<char>> {
    seq!["File "@ + range_text(f.span)] + match f.module {
        Some(m) => seq![decl_line("Module "@, m.path@, m.span, "  "@)],
        None => Seq::empty(),
    } + lines_of(f.imports@, import_lines_fn("  "@)) + lines_of(f.items@, item_lines_fn("  "@))
}

/// The dump text of a file: its lines joined by newlines.
pub open spec fn file_dump(f: AstFile) -> Seq<char> {
    join(file_lines(f), "\n"@)
}

pub proof fn lemma_lines_of_step<A>(s: Seq<A>, f: spec_fn(A) -> Seq<Seq<char>>, i: int)
    requires
        0 <= i < s.len(),
    ensures
        lines_of(s.take(i + 1), f) == lines_of(s.take(i), f) + f(s[i]),
{
    assert(s.take(i + 1).drop_last() =~= s.take(i));
}

pub proof fn lemma_lines_of_all<A>(s: Seq<A>, f: spec_fn(A) -> Seq<Seq<char>>)
    ensures
        lines_of(s.take(s.len() as int), f) == lines_of(s, f),
{
    assert(s.take(s.len() as int) =~= s);
}

pub(crate) fn push_range(out: &mut String, r: TextRange)
    ensures
        final(out)@ == old(out)@ + range_text(r),
{
    out.append("@");
    push_decimal(out, r.start);
    out.append("..");
    push_decimal(out, r.end);
    proof {
        assert(final(out)@ =~= old(out)@ + range_text(r));
    }
}

pub(crate) fn emit(out: &mut Vec<String>, line: String)
    ensures
        string_views(final(out)@) == string_views(old(out)@).push(line@),
{
    let ghost l = line@;
    out.push(line);
    proof {
        assert(string_views(out@) =~= string_views(old(out)@).push(l));
    }
}

/// `pad + text`.
pub(crate) fn text_line(pad: &str, text: &str) -> (r: String)
    ensures
        r@ == pad@ + text@,
{
    let mut l = owned(pad);
    l.append(text);
    l
}

/// `pad + head + range`.
pub(crate) fn range_line(pad: &str, head: &str, r: TextRange) -> (s: String)
    ensures
        s@ == pad@ + head@ + range_text(r),
{
    let mut l = owned(pad);
    l.append(head);
    push_range(&mut l, r);
    proof {
        assert(l@ =~= pad@ + head@ + range_text(r));
    }
    l
}

/// `pad + head + name + " " + range`.
pub(crate) fn named_line(pad: &str, head: &str, name: &str, r: TextRange) -> (s: String)
    ensures
        s@ == pad@ + head@ + name@ + " "@ + range_text(r),
{
    let mut l = owned(pad);
    l.append(head);
    l.append(name);
    l.append(" ");
    push_range(&mut l, r);
    proof {
        assert(l@ =~= pad@ + head@ + name@ + " "@ + range_text(r));
    }
    l
}

pub(crate) fn name_str(name: &Option<String>) -> (r: &str)
    ensures
        r@ == name_text(*name),
{
    match name {
        Some(n) => n.as_str(),
        None => "<missing>",
    }
}

pub(crate) fn deeper_pad(pad: &str) -> (r: String)
    ensures
        r@ == deeper(pad@),
{
    text_line(pad, "  ")
}

pub(crate) fn path_string(path: &Vec<String>) -> (r: String)
    ensures
        r@ == path_text(path@),
{
    let mut s = String::new();
    push_join(&mut s, path, ".");
    proof {
        assert(s@ =~= path_text(path@));
    }
    s
}

pub(crate) fn literal_string(l: &Literal) -> (r: String)
    ensures
        r@ == literal_text(*l),
{
    let mut s = String::new();
    match l {
        Literal::Integer(v) => {
            s.append("int(");
            s.append(v.as_str());
        },
        Literal::Bool(b) => {
            s.append("bool(");
            if *b {
                s.append("true");
            } else {
                s.append("false");
            }
        },
        Literal::String(v) => {
            s.append("string(");
            s.append(v.as_str());
        },
    }
    s.append(")");
    proof {
        assert(s@ =~= literal_text(*l));
    }
    s
}

pub(crate) fn binary_op_str(op: BinaryOp) -> (r: &'static str)
    ensures
        r@ == binary_op_text(op),
{
    match op {
        BinaryOp::Assign => "=",
        BinaryOp::Less => "<",
        BinaryOp::Greater => ">",
        BinaryOp::Add => "+",
        BinaryOp::Subtract => "-",
        BinaryOp::Multiply => "*",
        BinaryOp::Divide => "/",
    }
}

pub(crate) fn dump_generics(out: &mut Vec<String>, generics: &Vec<String>, pad: &str)
    ensures
        string_views(final(out)@) == string_views(old(out)@) + generics_lines(generics@, pad@),
{
    if generics.len() > 0 {
        let mut l = owned(pad);
        l.append("Generics ");
        push_join(&mut l, generics, ", ");
        emit(out, l);
    } else {
        proof {
            assert(string_views(out@) =~= string_views(out@) + generics_lines(generics@, pad@));
        }
    }
}

fn type_line_string(t: &TypeRef, pad: &str) -> (r: String)
    ensures
        r@ == type_line(*t, pad@),
{
    let shown = t.display();
    let mut l = owned(pad);
    l.append("Type ");
    l.append(shown.as_str());
    l.append(" ");
    push_range(&mut l, t.span);
    proof {
        assert(l@ =~= type_line(*t, pad@));
    }
    l
}

fn dump_opt_type(out: &mut Vec<String>, t: &Option<TypeRef>, pad: &str)
    ensures
        string_views(final(out)@) == string_views(old(out)@) + opt_type_lines(*t, pad@),
{
    match t {
        Some(t) => {
            emit(out, type_line_string(t, pad));
        },
        None => {
            proof {
                assert(string_views(out@) =~= string_views(out@) + Seq::<Seq<char>>::empty());
            }
        },
    }
}

fn dump_labeled_type(out: &mut Vec<String>, label: &str, t: &Option<TypeRef>, pad: &str)
    ensures
        string_views(final(out)@) == string_views(old(out)@) + labeled_type_lines(
            label@,
            *t,
            pad@,
        ),
{
    match t {
        Some(t) => {
            emit(out, text_line(pad, label));
            let inner = deeper_pad(pad);
            emit(out, type_line_string(t, inner.as_str()));
            proof {
                assert(string_views(out@) =~= string_views(old(out)@) + labeled_type_lines(
                    label@,
                    Some(*t),
                    pad@,
                ));
            }
        },
        None => {
            proof {
                assert(string_views(out@) =~= string_views(out@) + Seq::<Seq<char>>::empty());
            }
        },
    }
}

fn dump_pattern(out: &mut Vec<String>, p: &Pattern, pad: &str)
    ensures
        string_views(final(out)@) == string_views(old(out)@).push(pattern_line(*p, pad@)),
{
    let line = match p {
        Pattern::Wildcard { span } => range_line(pad, "Pattern _ ", *span),
        Pattern::Binding { name, span } => named_line(pad, "Pattern Binding ", name.as_str(), *span),
        Pattern::Literal { literal, span } => {
            let text = literal_string(literal);
            named_line(pad, "Pattern Literal ", text.as_str(), *span)
        },
        Pattern::Path { path, span } => {
            let text = path_string(path);
            named_line(pad, "Pattern Path ", text.as_str(), *span)
        },
    };
    emit(out, line);
}

fn dump_expr(out: &mut Vec<String>, e: &Expr, pad: &str)
    ensures
        string_views(final(out)@) == string_views(old(out)@) + expr_lines(*e, pad@),
    decreases e,
{
    let ghost base = string_views(out@);
    match e {
        Expr::Missing { span } => {
            emit(out, range_line(pad, "MissingExpr ", *span));
        },
        Expr::Literal { literal, span } => {
            let text = literal_string(literal);
            emit(out, named_line(pad, "Literal ", text.as_str(), *span));
        },
        Expr::Path { path, span } => {
            let text = path_string(path);
            emit(out, named_line(pad, "Path ", text.as_str(), *span));
        },
        Expr::Call { callee, args, span } => {
            let p2 = deeper_pad(pad);
            let p4 = deeper_pad(p2.as_str());
            emit(out, range_line(pad, "Call ", *span));
            emit(out, text_line(p2.as_str(), "Callee"));
            dump_expr(out, callee, p4.as_str());
            let ghost mid = string_views(out@);
            let mut i: usize = 0;
            while i < args.len()
                invariant
                    i <= args@.len(),
                    p2@ == deeper(pad@),
                    *e == (Expr::Call { callee: *callee, args: *args, span: *span }),
                    string_views(out@) == mid + args_lines(args@.subrange(0, i as int), p2@),
                decreases args@.len() - i,
            {
                emit(out, text_line(p2.as_str(), "Arg"));
                let p3 = deeper_pad(p2.as_str());
                proof {
                    assert(decreases_to!(*e => (*e)->Call_args));
                    assert((*e)->Call_args == *args);
                    assert(decreases_to!(*args => args@));
                    assert(decreases_to!(args@ => args@[i as int]));
                    assert(decreases_to!(*e => args@[i as int]));
                }
                dump_expr(out, &args[i], p3.as_str());
                proof {
                    let sub = args@.subrange(0, i + 1);
                    assert(sub.subrange(0, sub.len() - 1) =~= args@.subrange(0, i as int));
                    assert(string_views(out@) =~= mid + args_lines(sub, p2@));
                }
                i = i + 1;
            }
            proof {
                assert(args@.subrange(0, args@.len() as int) =~= args@);
                assert(string_views(out@) =~= base + expr_lines(*e, pad@));
            }
        },
        Expr::Block(block) => {
            dump_block(out, block, pad);
        },
        Expr::If { condition, then_block, else_branch, span } => {
            let p2 = deeper_pad(pad);
            let p4 = deeper_pad(p2.as_str());
            emit(out, range_line(pad, "If ", *span));
            emit(out, text_line(p2.as_str(), "Condition"));
            dump_expr(out, condition, p4.as_str());
            emit(out, text_line(p2.as_str(), "Then"));
            dump_block(out, then_block, p4.as_str());
            let ghost mid = string_views(out@);
            match else_branch {
                Some(other) => {
                    emit(out, text_line(p2.as_str(), "Else"));
                    dump_expr(out, other, p4.as_str());
                },
                None => {},
            }
            proof {
                assert(string_views(out@) =~= base + expr_lines(*e, pad@));
            }
        },
        Expr::Match { scrutinee, arms, span } => {
            let p2 = deeper_pad(pad);
            let p4 = deeper_pad(p2.as_str());
            emit(out, range_line(pad, "Match ", *span));
            emit(out, text_line(p2.as_str(), "Scrutinee"));
            dump_expr(out, scrutinee, p4.as_str());
            let ghost mid = string_views(out@);
            let mut i: usize = 0;
            while i < arms.len()
                invariant
                    i <= arms@.len(),
                    p2@ == deeper(pad@),
                    *e == (Expr::Match { scrutinee: *scrutinee, arms: *arms, span: *span }),
                    string_views(out@) == mid + arms_lines(arms@.subrange(0, i as int), p2@),
                decreases arms@.len() - i,
            {
                let arm = &arms[i];
                let p3 = deeper_pad(p2.as_str());
                emit(out, range_line(p2.as_str(), "Arm ", arm.span));
                dump_pattern(out, &arm.pattern, p3.as_str());
                proof {
                    assert(decreases_to!(*e => (*e)->Match_arms));
                    assert((*e)->Match_arms == *arms);
                    assert(decreases_to!(*arms => arms@));
                    assert(decreases_to!(arms@ => arms@[i as int]));
                    assert(decreases_to!(arms@[i as int] => arms@[i as int].expr));
                    assert(decreases_to!(*e => arms@[i as int].expr));
                }
                dump_expr(out, &arm.expr, p3.as_str());
                proof {
                    let sub = arms@.subrange(0, i + 1);
                    assert(sub.subrange(0, sub.len() - 1) =~= arms@.subrange(0, i as int));
                    assert(string_views(out@) =~= mid + arms_lines(sub, p2@));
                }
                i = i + 1;
            }
            proof {
                assert(arms@.subrange(0, arms@.len() as int) =~= arms@);
                assert(string_views(out@) =~= base + expr_lines(*e, pad@));
            }
        },
        Expr::Binary { op, left, right, span } => {
            let p2 = deeper_pad(pad);
            emit(out, named_line(pad, "Binary ", binary_op_str(*op), *span));
            dump_expr(out, left, p2.as_str());
            dump_expr(out, right, p2.as_str());
            proof {
                assert(string_views(out@) =~= base + expr_lines(*e, pad@));
            }
        },
        Expr::Try { expr, span } => {
            let p2 = deeper_pad(pad);
            emit(out, range_line(pad, "Try ", *span));
            dump_expr(out, expr, p2.as_str());
            proof {
                assert(string_views(out@) =~= base + expr_lines(*e, pad@));
            }
        },
    }
    proof {
        assert(string_views(out@) =~= base + expr_lines(*e, pad@));
    }
}

fn dump_block(out: &mut Vec<String>, b: &BlockExpr, pad: &str)
    ensures
        string_views(final(out)@) == string_views(old(out)@) + block_lines(*b, pad@),
    decreases b,
{
    let ghost base = string_views(out@);
    emit(out, range_line(pad, "Block ", b.span));
    let p2 = deeper_pad(pad);
    let ghost mid = string_views(out@);
    let mut i: usize = 0;
    while i < b.statements.len()
        invariant
            i <= b.statements@.len(),
            p2@ == deeper(pad@),
            string_views(out@) == mid + statements_lines(
                b.statements@.subrange(0, i as int),
                p2@,
            ),
        decreases b.statements@.len() - i,
    {
        dump_statement(out, &b.statements[i], p2.as_str());
        proof {
            let sub = b.statements@.subrange(0, i + 1);
            assert(sub.subrange(0, sub.len() - 1) =~= b.statements@.subrange(0, i as int));
            assert(string_views(out@) =~= mid + statements_lines(sub, p2@));
        }
        i = i + 1;
    }
    proof {
        assert(b.statements@.subrange(0, b.statements@.len() as int) =~= b.statements@);
        assert(string_views(out@) =~= base + block_lines(*b, pad@));
    }
}

fn dump_statement(out: &mut Vec<String>, st: &Statement, pad: &str)
    ensures
        string_views(final(out)@) == string_views(old(out)@) + statement_lines(*st, pad@),
    decreases st,
{
    let ghost base = string_views(out@);
    match st {
        Statement::Let(l) => {
            let mut head = owned(pad);
            head.append("Let");
            if l.mutable {
                head.append(" mut");
            }
            head.append(" ");
            head.append(name_str(&l.name));
            head.append(" ");
            push_range(&mut head, l.span);
            proof {
                assert(head@ =~= pad@ + "Let"@ + (if l.mutable {
                    " mut"@
                } else {
                    Seq::empty()
                }) + " "@ + name_text(l.name) + " "@ + range_text(l.span));
            }
            emit(out, head);
            let p2 = deeper_pad(pad);
            dump_labeled_type(out, "Type", &l.ty, p2.as_str());
            match &l.value {
                Some(v) => {
                    let p4 = deeper_pad(p2.as_str());
                    emit(out, text_line(p2.as_str(), "Value"));
                    dump_expr(out, v, p4.as_str());
                },
                None => {},
            }
            proof {
                assert(string_views(out@) =~= base + statement_lines(*st, pad@));
            }
        },
        Statement::Return { expr, span } => {
            emit(out, range_line(pad, "Return ", *span));
            match expr {
                Some(v) => {
                    let p2 = deeper_pad(pad);
                    dump_expr(out, v, p2.as_str());
                },
                None => {},
            }
            proof {
                assert(string_views(out@) =~= base + statement_lines(*st, pad@));
            }
        },
        Statement::Expr(e) => {
            dump_expr(out, e, pad);
        },
    }
}

fn dump_function(out: &mut Vec<String>, f: &FunctionDecl, pad: &str)
    ensures
        string_views(final(out)@) == string_views(old(out)@) + function_lines(*f, pad@),
{
    let ghost base = string_views(out@);
    emit(out, named_line(pad, "Fn ", name_str(&f.name), f.span));
    let p2 = deeper_pad(pad);
    dump_generics(out, &f.generics, p2.as_str());
    let ghost mid = string_views(out@);
    let ghost g = param_lines_fn(p2@);
    let mut i: usize = 0;
    while i < f.params.params.len()
        invariant
            i <= f.params.params@.len(),
            p2@ == deeper(pad@),
            g == param_lines_fn(p2@),
            string_views(out@) == mid + lines_of(f.params.params@.take(i as int), g),
        decreases f.params.params@.len() - i,
    {
        let param = &f.params.params[i];
        emit(out, named_line(p2.as_str(), "Param ", name_str(&param.name), param.span));
        let p3 = deeper_pad(p2.as_str());
        dump_opt_type(out, &param.ty, p3.as_str());
        proof {
            lemma_lines_of_step(f.params.params@, g, i as int);
            assert(string_views(out@) =~= mid + lines_of(f.params.params@.take(i + 1), g));
        }
        i = i + 1;
    }
    proof {
        lemma_lines_of_all(f.params.params@, g);
    }
    dump_labeled_type(out, "ReturnType", &f.return_type, p2.as_str());
    match &f.body {
        Some(b) => {
            dump_block(out, b, p2.as_str());
        },
        None => {},
    }
    proof {
        assert(string_views(out@) =~= base + function_lines(*f, pad@));
    }
}

fn dump_item(out: &mut Vec<String>, item: &Item, pad: &str)
    ensures
        string_views(final(out)@) == string_views(old(out)@) + item_lines(*item, pad@),
{
    let ghost base = string_views(out@);
    match item {
        Item::Function(f) => {
            dump_function(out, f, pad);
        },
        Item::Struct(st) => {
            dump_struct(out, st, pad);
        },
        Item::Enum(en) => {
            dump_enum(out, en, pad);
        },
        Item::Trait(t) => {
            emit(out, named_line(pad, "Trait ", name_str(&t.name), t.span));
            let p2 = deeper_pad(pad);
            dump_generics(out, &t.generics, p2.as_str());
            dump_functions(out, &t.functions, p2.as_str());
            proof {
                assert(string_views(out@) =~= base + item_lines(*item, pad@));
            }
        },
        Item::Impl(i) => {
            emit(out, range_line(pad, "Impl ", i.span));
            let p2 = deeper_pad(pad);
            dump_labeled_type(out, "Trait", &i.trait_path, p2.as_str());
            dump_labeled_type(out, "Target", &i.target, p2.as_str());
            dump_functions(out, &i.methods, p2.as_str());
            proof {
                assert(string_views(out@) =~= base + item_lines(*item, pad@));
            }
        },
    }
}


fn dump_struct(out: &mut Vec<String>, s: &StructDecl, pad: &str)
    ensures
        string_views(final(out)@) == string_views(old(out)@) + item_lines(Item::Struct(*s), pad@),
{
    let ghost base = string_views(out@);
    emit(out, named_line(pad, "Struct ", name_str(&s.name), s.span));
    let p2 = deeper_pad(pad);
    dump_generics(out, &s.generics, p2.as_str());
    let ghost mid = string_views(out@);
    let ghost g = field_lines_fn(p2@);
    let mut i: usize = 0;
    while i < s.fields.len()
        invariant
            i <= s.fields@.len(),
            p2@ == deeper(pad@),
            g == field_lines_fn(p2@),
            string_views(out@) == mid + lines_of(s.fields@.take(i as int), g),
        decreases s.fields@.len() - i,
    {
        let field = &s.fields[i];
        emit(out, named_line(p2.as_str(), "Field ", name_str(&field.name), field.span));
        let p3 = deeper_pad(p2.as_str());
        dump_opt_type(out, &field.ty, p3.as_str());
        proof {
            lemma_lines_of_step(s.fields@, g, i as int);
            assert(string_views(out@) =~= mid + lines_of(s.fields@.take(i + 1), g));
        }
        i = i + 1;
    }
    proof {
        lemma_lines_of_all(s.fields@, g);
        assert(string_views(out@) =~= base + item_lines(Item::Struct(*s), pad@));
    }
}

fn dump_enum(out: &mut Vec<String>, en: &EnumDecl, pad: &str)
    ensures
        string_views(final(out)@) == string_views(old(out)@) + item_lines(Item::Enum(*en), pad@),
{
    let ghost base = string_views(out@);
    emit(out, named_line(pad, "Enum ", name_str(&en.name), en.span));
    let p2 = deeper_pad(pad);
    dump_generics(out, &en.generics, p2.as_str());
    let ghost mid = string_views(out@);
    let ghost g = variant_lines_fn(p2@);
    let mut i: usize = 0;
    while i < en.variants.len()
        invariant
            i <= en.variants@.len(),
            p2@ == deeper(pad@),
            g == variant_lines_fn(p2@),
            string_views(out@) == mid + lines_of(en.variants@.take(i as int), g),
        decreases en.variants@.len() - i,
    {
        let variant = &en.variants[i];
        dump_variant(out, variant, p2.as_str());
        proof {
            lemma_lines_of_step(en.variants@, g, i as int);
            assert(string_views(out@) =~= mid + lines_of(en.variants@.take(i + 1), g));
        }
        i = i + 1;
    }
    proof {
        lemma_lines_of_all(en.variants@, g);
        assert(string_views(out@) =~= base + item_lines(Item::Enum(*en), pad@));
    }
}

fn dump_variant(out: &mut Vec<String>, v: &EnumVariant, pad: &str)
    ensures
        string_views(final(out)@) == string_views(old(out)@) + variant_lines(*v, pad@),
{
    let ghost base = string_views(out@);
    emit(out, named_line(pad, "Variant ", name_str(&v.name), v.span));
    let p2 = deeper_pad(pad);
    let ghost mid = string_views(out@);
    let ghost g = type_lines_fn(p2@);
    let mut i: usize = 0;
    while i < v.fields.len()
        invariant
            i <= v.fields@.len(),
            p2@ == deeper(pad@),
            g == type_lines_fn(p2@),
            string_views(out@) == mid + lines_of(v.fields@.take(i as int), g),
        decreases v.fields@.len() - i,
    {
        emit(out, type_line_string(&v.fields[i], p2.as_str()));
        proof {
            lemma_lines_of_step(v.fields@, g, i as int);
            assert(string_views(out@) =~= mid + lines_of(v.fields@.take(i + 1), g));
        }
        i = i + 1;
    }
    proof {
        lemma_lines_of_all(v.fields@, g);
        assert(string_views(out@) =~= base + variant_lines(*v, pad@));
    }
}

fn dump_functions(out: &mut Vec<String>, fs: &Vec<FunctionDecl>, pad: &str)
    ensures
        string_views(final(out)@) == string_views(old(out)@) + lines_of(
            fs@,
            function_lines_fn(pad@),
        ),
{
    let ghost base = string_views(out@);
    let ghost g = function_lines_fn(pad@);
    let mut i: usize = 0;
    proof {
        assert(base + lines_of(fs@.take(0), g) =~= base);
    }
    while i < fs.len()
        invariant
            i <= fs@.len(),
            g == function_lines_fn(pad@),
            string_views(out@) == base + lines_of(fs@.take(i as int), g),
        decreases fs@.len() - i,
    {
        dump_function(out, &fs[i], pad);
        proof {
            lemma_lines_of_step(fs@, g, i as int);
            assert(string_views(out@) =~= base + lines_of(fs@.take(i + 1), g));
        }
        i = i + 1;
    }
    proof {
        lemma_lines_of_all(fs@, g);
    }
}

impl AstFile {
    /// Renders a stable debug dump for snapshot tests.
    pub fn dump(&self) -> (r: String)
        ensures
            r@ == file_dump(*self),
    {
        let mut lines: Vec<String> = Vec::new();
        let ghost start = string_views(lines@);
        let mut first = String::new();
        first.append("File ");
        push_range(&mut first, self.span);
        proof {
            assert(first@ =~= "File "@ + range_text(self.span));
        }
        emit(&mut lines, first);
        match &self.module {
            Some(m) => {
                let path = path_string(&m.path);
                emit(&mut lines, named_line("  ", "Module ", path.as_str(), m.span));
            },
            None => {},
        }
        let ghost mid = string_views(lines@);
        let ghost g = import_lines_fn("  "@);
        let mut i: usize = 0;
        proof {
            assert(mid + lines_of(self.imports@.take(0), g) =~= mid);
        }
        while i < self.imports.len()
            invariant
                i <= self.imports@.len(),
                g == import_lines_fn("  "@),
                string_views(lines@) == mid + lines_of(self.imports@.take(i as int), g),
            decreases self.imports@.len() - i,
        {
            let import = &self.imports[i];
            let path = path_string(&import.path);
            emit(&mut lines, named_line("  ", "Import ", path.as_str(), import.span));
            proof {
                lemma_lines_of_step(self.imports@, g, i as int);
                assert(string_views(lines@) =~= mid + lines_of(self.imports@.take(i + 1), g));
            }
            i = i + 1;
        }
        proof {
            lemma_lines_of_all(self.imports@, g);
        }
        let ghost mid2 = string_views(lines@);
        let ghost h = item_lines_fn("  "@);
        let mut j: usize = 0;
        proof {
            assert(mid2 + lines_of(self.items@.take(0), h) =~= mid2);
        }
        while j < self.items.len()
            invariant
                j <= self.items@.len(),
                h == item_lines_fn("  "@),
                string_views(lines@) == mid2 + lines_of(self.items@.take(j as int), h),
            decreases self.items@.len() - j,
        {
            dump_item(&mut lines, &self.items[j], "  ");
            proof {
                lemma_lines_of_step(self.items@, h, j as int);
                assert(string_views(lines@) =~= mid2 + lines_of(self.items@.take(j + 1), h));
            }
            j = j + 1;
        }
        proof {
            lemma_lines_of_all(self.items@, h);
            assert(string_views(lines@) =~= file_lines(*self));
        }
        let mut text = String::new();
        push_join(&mut text, &lines, "\n");
        proof {
            assert(text@ =~= file_dump(*self));
        }
        text
    }
}

} // verus!
