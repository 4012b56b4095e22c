//! The syntax tree of the script language.

pub mod docs;
pub mod fold;
pub mod helper;
pub mod meta;
pub mod reduce;
pub mod support;

use vstd::prelude::*;
use crate::errors::{BinOpKind, UnaryOpKind};
use crate::registry::{CustomFn, TremorFnWrapper};
use crate::tilde::Extractor;
use crate::value::Value;

verus! {

/// A name in the source.
#[derive(Debug, PartialEq, Eq)]
pub struct Ident {
    pub mid: usize,
    /// The text of the name.
    pub id: String,
}

impl Ident {
    /// The name `id`, with no place in the source.
    pub fn from(id: &str) -> (r: Ident)
        ensures
            r.mid == 0,
            r.id@ == id@,
    {
        Ident { mid: 0, id: id.to_string() }
    }
}

/// A literal value.
#[derive(Debug, PartialEq, Eq)]
pub struct Literal {
    pub mid: usize,
    pub value: Value,
}

/// One field of a record constructor.
#[derive(Debug, PartialEq, Eq)]
pub struct Field {
    pub mid: usize,
    pub name: ImutExprInt,
    pub value: ImutExprInt,
}

/// A record constructor.
#[derive(Debug, PartialEq, Eq)]
pub struct Record {
    pub mid: usize,
    pub fields: Vec<Field>,
}

/// A list constructor.
#[derive(Debug, PartialEq, Eq)]
pub struct List {
    pub mid: usize,
    pub exprs: Vec<ImutExpr>,
}

/// An operator with two operands.
#[derive(Debug, PartialEq, Eq)]
pub struct BinExpr {
    pub mid: usize,
    pub kind: BinOpKind,
    pub lhs: ImutExprInt,
    pub rhs: ImutExprInt,
}

/// An operator with one operand.
#[derive(Debug, PartialEq, Eq)]
pub struct UnaryExpr {
    pub mid: usize,
    pub kind: UnaryOpKind,
    pub expr: ImutExprInt,
}

/// One step of a path: into the field `key` of a record, or to the element
/// `idx` of an array.
#[derive(Debug, PartialEq, Eq)]
pub enum Segment {
    Id { key: String, mid: usize },
    Idx { idx: usize, mid: usize },
}

/// A path that starts at a local variable or a constant.
#[derive(Debug, PartialEq, Eq)]
pub struct LocalPath {
    pub idx: usize,
    pub is_const: bool,
    pub mid: usize,
    pub segments: Vec<Segment>,
}

/// A path that starts at the event's metadata.
#[derive(Debug, PartialEq, Eq)]
pub struct MetadataPath {
    pub mid: usize,
    pub segments: Vec<Segment>,
}

/// A path that starts at the event's value.
#[derive(Debug, PartialEq, Eq)]
pub struct EventPath {
    pub mid: usize,
    pub segments: Vec<Segment>,
}

/// A path that starts at the operator's state.
#[derive(Debug, PartialEq, Eq)]
pub struct StatePath {
    pub mid: usize,
    pub segments: Vec<Segment>,
}

/// A path into one of the values that a script can see.
#[derive(Debug, PartialEq, Eq)]
pub enum Path {
    Const(LocalPath),
    Local(LocalPath),
    Event(EventPath),
    State(StatePath),
    Meta(MetadataPath),
}

/// What a call calls: a function that the engine brings, or one that the
/// script defines.
#[derive(Debug, PartialEq, Eq)]
pub enum Invocable {
    Intrinsic(TremorFnWrapper),
    Tremor(CustomFn),
}

/// A call of a function.
#[derive(Debug, PartialEq, Eq)]
pub struct Invoke {
    pub mid: usize,
    pub module: Vec<String>,
    pub fun: String,
    pub invocable: Invocable,
    pub args: Vec<ImutExpr>,
}

/// A test by an extractor, as `~=` writes it.
#[derive(Debug, PartialEq, Eq)]
pub struct TestExpr {
    pub mid: usize,
    /// The name of the extractor
    pub id: String,
    /// The rule that the extractor was given
    pub test: String,
    pub extractor: Extractor,
}

/// A test on one element of an array.
#[derive(Debug, PartialEq, Eq)]
pub enum ArrayPredicatePattern {
    /// The element equals the expression's value.
    Expr(ImutExprInt),
    /// The element passes the extractor's test.
    Tilde(TestExpr),
    /// The element is a record that fits the pattern.
    Record(RecordPattern),
    /// Any element fits.
    Ignore,
}

/// A test on one field of a record.
#[derive(Debug, PartialEq, Eq)]
pub enum PredicatePattern {
    /// The field is there and passes the extractor's test; what the extractor
    /// gives for it is bound to the local variable `idx`, which the script
    /// calls `assign`.
    TildeEq { assign: String, lhs: String, key: String, idx: usize, test: Box<TestExpr> },
    /// The field is there and `field kind rhs` is true.
    Bin { lhs: String, key: String, rhs: ImutExprInt, kind: BinOpKind },
    /// The field is there and is a record that fits the pattern.
    RecordPatternEq { lhs: String, key: String, pattern: RecordPattern },
    /// The field is there and is an array that fits the pattern.
    ArrayPatternEq { lhs: String, key: String, pattern: ArrayPattern },
    /// The field is there.
    FieldPresent { lhs: String, key: String },
    /// The field is not there.
    FieldAbsent { lhs: String, key: String },
}

/// A pattern for records: every test on a field must hold.
#[derive(Debug, PartialEq, Eq)]
pub struct RecordPattern {
    pub mid: usize,
    pub fields: Vec<PredicatePattern>,
}

/// A pattern for arrays: as many elements as tests, each fitting its test.
#[derive(Debug, PartialEq, Eq)]
pub struct ArrayPattern {
    pub mid: usize,
    pub exprs: Vec<ArrayPredicatePattern>,
}

/// A pattern that binds what fits the inner pattern to a local variable.
#[derive(Debug, PartialEq, Eq)]
pub struct AssignPattern {
    pub id: String,
    pub idx: usize,
    pub pattern: Box<Pattern>,
}

/// A pattern for arrays taken as tuples: the first elements fit the tests, in
/// order; an open pattern lets more elements follow.
#[derive(Debug, PartialEq, Eq)]
pub struct TuplePattern {
    pub mid: usize,
    pub exprs: Vec<ArrayPredicatePattern>,
    pub open: bool,
}

/// The pattern of a `match` clause.
#[derive(Debug, PartialEq, Eq)]
pub enum Pattern {
    Record(RecordPattern),
    Array(ArrayPattern),
    Expr(ImutExprInt),
    Assign(AssignPattern),
    Tuple(TuplePattern),
    DoNotCare,
    Default,
}

/// A clause of a `match` in an expression.
#[derive(Debug, PartialEq, Eq)]
pub struct ImutPredicateClause {
    pub mid: usize,
    pub pattern: Pattern,
    pub guard: Option<ImutExprInt>,
    pub exprs: Vec<ImutExpr>,
}

/// A `match` in an expression.
#[derive(Debug, PartialEq, Eq)]
pub struct ImutMatch {
    pub mid: usize,
    pub target: ImutExprInt,
    pub patterns: Vec<ImutPredicateClause>,
}

/// A `merge`: the record that `target` gives, with the record that `expr`
/// gives merged into it.
#[derive(Debug, PartialEq, Eq)]
pub struct Merge {
    pub mid: usize,
    pub target: ImutExprInt,
    pub expr: ImutExprInt,
}

/// One change that a `patch` makes to a record. The names are expressions
/// that give strings.
#[derive(Debug, PartialEq, Eq)]
pub enum PatchOperation {
    /// Adds a field that is not there yet.
    Insert { ident: ImutExprInt, expr: ImutExprInt },
    /// Sets a field, whether it is there or not.
    Upsert { ident: ImutExprInt, expr: ImutExprInt },
    /// Replaces a field that is there.
    Update { ident: ImutExprInt, expr: ImutExprInt },
    /// Takes a field out.
    Erase { ident: ImutExprInt },
    /// Gives the value of one field to a new one.
    Copy { from: ImutExprInt, to: ImutExprInt },
    /// Gives a field a new name.
    Move { from: ImutExprInt, to: ImutExprInt },
    /// Merges a record into the record that a field holds.
    Merge { ident: ImutExprInt, expr: ImutExprInt },
    /// Merges a record into the whole record.
    TupleMerge { expr: ImutExprInt },
}

/// A `patch`: the record that `target` gives, with the changes of
/// `operations` made to it in order.
#[derive(Debug, PartialEq, Eq)]
pub struct Patch {
    pub mid: usize,
    pub target: ImutExprInt,
    pub operations: Vec<PatchOperation>,
}

/// A case of a `for`: what an item gives where the guard passes.
#[derive(Debug, PartialEq, Eq)]
pub struct ImutComprehensionCase {
    pub mid: usize,
    pub key_name: String,
    pub value_name: String,
    pub guard: Option<ImutExprInt>,
    pub exprs: Vec<ImutExpr>,
}

/// A `for`: an array of what the items of `target` give, each by the first
/// case whose guard passes. The local variables `key_id` and `val_id` hold
/// the item's name, or its place, and its value.
#[derive(Debug, PartialEq, Eq)]
pub struct ImutComprehension {
    pub mid: usize,
    pub key_id: usize,
    pub val_id: usize,
    pub target: ImutExprInt,
    pub cases: Vec<ImutComprehensionCase>,
}

/// An expression that changes nothing.
#[derive(Debug, PartialEq, Eq)]
pub enum ImutExprInt {
    Record(Record),
    List(List),
    Binary(Box<BinExpr>),
    Unary(Box<UnaryExpr>),
    Match(Box<ImutMatch>),
    Merge(Box<Merge>),
    Patch(Box<Patch>),
    Comprehension(Box<ImutComprehension>),
    Path(Path),
    Local { idx: usize, mid: usize, is_const: bool },
    Literal(Literal),
    Present { path: Path, mid: usize },
    Invoke1(Invoke),
    Invoke2(Invoke),
    Invoke3(Invoke),
    Invoke(Invoke),
}

/// An expression that changes nothing, as the rest of the engine sees it.
#[derive(Debug, PartialEq, Eq)]
pub struct ImutExpr(pub ImutExprInt);

/// An `emit`: the value to send on, and the port to send it to.
#[derive(Debug, PartialEq, Eq)]
pub struct EmitExpr {
    pub mid: usize,
    pub expr: ImutExprInt,
    pub port: Option<ImutExprInt>,
}

/// A clause of a `match` statement.
#[derive(Debug, PartialEq, Eq)]
pub struct PredicateClause {
    pub mid: usize,
    pub pattern: Pattern,
    pub guard: Option<ImutExprInt>,
    pub exprs: Vec<Expr>,
}

/// A `match` statement.
#[derive(Debug, PartialEq, Eq)]
pub struct Match {
    pub mid: usize,
    pub target: ImutExprInt,
    pub patterns: Vec<PredicateClause>,
}

/// A statement: an expression that may assign, emit or drop.
#[derive(Debug, PartialEq, Eq)]
pub enum Expr {
    Match(Box<Match>),
    /// A `patch` whose result is put where its target stands.
    PatchInPlace(Box<Patch>),
    /// A `merge` whose result is put where its target stands.
    MergeInPlace(Box<Merge>),
    Assign { mid: usize, path: Path, expr: Box<Expr> },
    /// An assignment that takes its value out of the local variable `idx`.
    AssignMoveLocal { mid: usize, path: Path, idx: usize },
    Drop { mid: usize },
    Emit(Box<EmitExpr>),
    Imut(ImutExprInt),
}

/// A call of an aggregate function.
#[derive(Debug, PartialEq, Eq)]
pub struct InvokeAggrFn {
    pub mid: usize,
    pub module: String,
    pub fun: String,
    /// Arguments passed to the function
    pub args: Vec<ImutExpr>,
}

/// A unit of a script's source that the lexer handles itself.
#[derive(Debug, PartialEq, Eq)]
pub enum LexicalUnit {
    /// Import declaration with no alias
    NakedImportDecl(Vec<Ident>),
    /// Import declaration with an alias
    AliasedImportDecl(Vec<Ident>, Ident),
    /// Line directive with embedded "<string> <num> ;"
    LineDirective(String),
}

} // verus!
