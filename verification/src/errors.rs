//! What can go wrong in a script, at load time or while it runs.

use vstd::prelude::*;
use crate::pos::Range;
use crate::value::ValueType;

verus! {

/// The operators that take two operands.
#[derive(Clone, Copy, Debug, PartialEq, Eq, Structural)]
pub enum BinOpKind {
    Or,
    Xor,
    And,
    BitOr,
    BitXor,
    BitAnd,
    Eq,
    NotEq,
    Gte,
    Gt,
    Lte,
    Lt,
    RBitShiftSigned,
    RBitShiftUnsigned,
    LBitShift,
    Add,
    Sub,
    Mul,
    Div,
    Mod,
}

/// The operators that take one operand.
#[derive(Clone, Copy, Debug, PartialEq, Eq, Structural)]
pub enum UnaryOpKind {
    Plus,
    Minus,
    Not,
    BitNot,
}

/// What went wrong.
#[derive(Clone, Copy, Debug, PartialEq, Eq, Structural)]
pub enum ErrorKind {
    /// The operator cannot take an operand of this type, or its result does
    /// not fit.
    InvalidUnary(UnaryOpKind, ValueType),
    /// The operator cannot take operands of these types, or its result does
    /// not fit.
    InvalidBinary(BinOpKind, ValueType, ValueType),
    /// A value of the first type was needed and one of the second was found.
    TypeError(ValueType, ValueType),
    /// No clause of a `match` fits the value.
    NoClauseHit,
    /// Expressions are nested deeper than the limit allows.
    RecursionLimit,
    /// A path leads to a field or an element that is not there.
    BadAccess,
    /// A local variable is read before anything was assigned to it.
    UnsetLocal,
    /// A constant is referred to that the script does not define.
    InvalidConst,
    /// A function is called with arguments it cannot take.
    BadArguments,
    /// The script names a local variable where none can be used.
    NoLocals,
    /// The script names a constant where none can be used.
    NoConsts,
    /// A function of this name is defined already.
    DoubleDefinition,
    /// A constant value is asked of an expression that is no literal.
    NotConstant,
    /// A patch adds a field that the record has already.
    PatchKeyExists,
    /// A patch updates a field that the record does not have.
    UpdateKeyMissing,
    /// A patch merges into a field that holds a value of this type, which
    /// is no record.
    MergeTypeConflict(ValueType),
}

/// An error with the stretch of source that it is about: `inner` is the
/// expression at fault, `outer` what is shown around it.
#[derive(Clone, Copy, Debug, PartialEq, Eq, Structural)]
pub struct Error {
    pub outer: Range,
    pub inner: Range,
    pub kind: ErrorKind,
}

impl Error {
    /// The error of kind `kind` about the stretch `extent`, shown with two
    /// lines of context.
    pub open spec fn at(extent: Range, kind: ErrorKind) -> Error {
        Error { outer: extent.widened(2), inner: extent, kind }
    }

    pub fn new(extent: Range, kind: ErrorKind) -> (r: Error)
        ensures
            r == Error::at(extent, kind),
    {
        Error { outer: extent.expand_lines(2), inner: extent, kind }
    }

}

} // verus!
