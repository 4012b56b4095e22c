//! The functions that a script can call.

use vstd::prelude::*;
use crate::ast::ImutExpr;
use crate::value::{items_view, lemma_array_view, Data, Value};

verus! {

/// A function that the engine brings.
#[derive(Clone, Copy, Debug, PartialEq, Eq, Structural)]
pub enum Intrinsic {
    /// `math::max(a, b)`: the larger of two integers.
    MathMax,
    /// `math::min(a, b)`: the smaller of two integers.
    MathMin,
    /// `array::len(a)`: the number of elements of an array.
    ArrayLen,
    /// `system::ingest_ns()`: when the event at hand came in.
    IngestNs,
}

/// A function of the engine, under the name by which scripts call it.
#[derive(Debug, PartialEq, Eq)]
pub struct TremorFnWrapper {
    pub module: String,
    pub name: String,
    pub fun: Intrinsic,
}

/// A function that a script defines: the arguments are bound to the first
/// local variables, the expressions of the body are evaluated in turn, and the
/// last one's value is the result.
#[derive(Debug, PartialEq, Eq)]
pub struct CustomFn {
    pub name: String,
    pub args: Vec<String>,
    pub body: Vec<ImutExpr>,
    pub locals: usize,
    pub is_const: bool,
    pub open: bool,
    pub inline: bool,
}

impl CustomFn {
    /// Whether a call of the function can be replaced by its body: it is
    /// marked for it, takes no arguments and has a body of one expression.
    pub open spec fn inlines(self) -> bool {
        self.inline && self.args@.len() == 0 && self.body@.len() == 1
    }

    pub fn can_inline(&self) -> (r: bool)
        ensures
            r == self.inlines(),
    {
        self.inline && self.args.len() == 0 && self.body.len() == 1
    }

    /// Whether a call with constant arguments can be computed when the script
    /// is loaded.
    pub fn is_const(&self) -> (r: bool)
        ensures
            r == self.is_const,
    {
        self.is_const
    }
}

/// Why a call of a function fails.
#[derive(Clone, Copy, Debug, PartialEq, Eq, Structural)]
pub enum FunctionError {
    /// The function does not take this number of arguments.
    BadArity,
    /// The function does not take arguments of these types.
    BadType,
}

impl Intrinsic {
    /// Whether the function gives the same result for the same arguments,
    /// whatever the event at hand.
    pub open spec fn pure(self) -> bool {
        self != Intrinsic::IngestNs
    }

    /// How many arguments the function takes.
    pub open spec fn arity(self) -> nat {
        match self {
            Intrinsic::MathMax => 2,
            Intrinsic::MathMin => 2,
            Intrinsic::ArrayLen => 1,
            Intrinsic::IngestNs => 0,
        }
    }

    /// What the function gives for `args` on an event that came in at `at`.
    pub open spec fn apply(self, args: Seq<Data>, at: u64) -> Result<Data, FunctionError> {
        if args.len() != self.arity() {
            Err(FunctionError::BadArity)
        } else {
            match self {
                Intrinsic::MathMax => match (args[0], args[1]) {
                    (Data::I64(a), Data::I64(b)) => Ok(
                        Data::I64(
                            if a >= b {
                                a
                            } else {
                                b
                            },
                        ),
                    ),
                    _ => Err(FunctionError::BadType),
                },
                Intrinsic::MathMin => match (args[0], args[1]) {
                    (Data::I64(a), Data::I64(b)) => Ok(
                        Data::I64(
                            if a <= b {
                                a
                            } else {
                                b
                            },
                        ),
                    ),
                    _ => Err(FunctionError::BadType),
                },
                Intrinsic::ArrayLen => match args[0] {
                    Data::Array(items) => if items.len() <= i64::MAX {
                        Ok(Data::I64(items.len() as int))
                    } else {
                        Err(FunctionError::BadType)
                    },
                    _ => Err(FunctionError::BadType),
                },
                Intrinsic::IngestNs => if at <= i64::MAX {
                    Ok(Data::I64(at as int))
                } else {
                    Err(FunctionError::BadType)
                },
            }
        }
    }
}

/// The integer `x` as a value.
fn int_value(x: i64) -> (r: Value)
    ensures
        r@ == Data::I64(x as int),
{
    Value::I64(x)
}

impl TremorFnWrapper {
    /// The function `fun` under the name `module::name`.
    pub fn new(module: &str, name: &str, fun: Intrinsic) -> (r: TremorFnWrapper)
        ensures
            r.module@ == module@,
            r.name@ == name@,
            r.fun == fun,
    {
        TremorFnWrapper { module: module.to_string(), name: name.to_string(), fun }
    }

    /// Whether a call with constant arguments can be computed when the script
    /// is loaded.
    pub fn is_const(&self) -> (r: bool)
        ensures
            r == self.fun.pure(),
    {
        match self.fun {
            Intrinsic::IngestNs => false,
            _ => true,
        }
    }

    /// Calls the function.
    pub fn invoke(&self, at: u64, args: &Vec<Value>) -> (r: Result<Value, FunctionError>)
        ensures
            match r {
                Ok(v) => self.fun.apply(items_view(args@), at) == Ok::<Data, FunctionError>(v@),
                Err(e) => self.fun.apply(items_view(args@), at) == Err::<Data, FunctionError>(e),
            },
    {
        match self.fun {
            Intrinsic::MathMax => {
                if args.len() != 2 {
                    return Err(FunctionError::BadArity);
                }
                match (&args[0], &args[1]) {
                    (Value::I64(a), Value::I64(b)) => Ok(
                        int_value(
                            if *a >= *b {
                                *a
                            } else {
                                *b
                            },
                        ),
                    ),
                    _ => Err(FunctionError::BadType),
                }
            },
            Intrinsic::MathMin => {
                if args.len() != 2 {
                    return Err(FunctionError::BadArity);
                }
                match (&args[0], &args[1]) {
                    (Value::I64(a), Value::I64(b)) => Ok(
                        int_value(
                            if *a <= *b {
                                *a
                            } else {
                                *b
                            },
                        ),
                    ),
                    _ => Err(FunctionError::BadType),
                }
            },
            Intrinsic::ArrayLen => {
                if args.len() != 1 {
                    return Err(FunctionError::BadArity);
                }
                match &args[0] {
                    Value::Array(items) => {
                        proof {
                            lemma_array_view(*items);
                        }
                        let n = items.len() as u64;
                        if n <= 0x7fff_ffff_ffff_ffffu64 {
                            Ok(int_value(n as i64))
                        } else {
                            Err(FunctionError::BadType)
                        }
                    },
                    _ => Err(FunctionError::BadType),
                }
            },
            Intrinsic::IngestNs => {
                if args.len() != 0 {
                    return Err(FunctionError::BadArity);
                }
                if at <= 0x7fff_ffff_ffff_ffffu64 {
                    Ok(int_value(at as i64))
                } else {
                    Err(FunctionError::BadType)
                }
            },
        }
    }
}

/// The functions that the engine brings, by module and name.
pub struct Registry {
    pub functions: Vec<TremorFnWrapper>,
}

impl Registry {
    /// The first of `functions[from..]` that is called `module::name`.
    pub open spec fn lookup(functions: Seq<TremorFnWrapper>, module: Seq<char>, name: Seq<char>, from: int) -> Option<int>
        decreases functions.len() - from,
    {
        if from < 0 || from >= functions.len() {
            None
        } else if functions[from].module@ == module && functions[from].name@ == name {
            Some(from)
        } else {
            Self::lookup(functions, module, name, from + 1)
        }
    }

    /// The registry with the engine's own functions.
    pub fn new() -> (r: Registry)
        ensures
            r.functions@.len() == 4,
            r.functions@[0].fun == Intrinsic::MathMax,
            r.functions@[0].module@ == "math"@ && r.functions@[0].name@ == "max"@,
            r.functions@[1].fun == Intrinsic::MathMin,
            r.functions@[1].module@ == "math"@ && r.functions@[1].name@ == "min"@,
            r.functions@[2].fun == Intrinsic::ArrayLen,
            r.functions@[2].module@ == "array"@ && r.functions@[2].name@ == "len"@,
            r.functions@[3].fun == Intrinsic::IngestNs,
            r.functions@[3].module@ == "system"@ && r.functions@[3].name@ == "ingest_ns"@,
    {
        let mut functions: Vec<TremorFnWrapper> = Vec::new();
        functions.push(TremorFnWrapper::new("math", "max", Intrinsic::MathMax));
        functions.push(TremorFnWrapper::new("math", "min", Intrinsic::MathMin));
        functions.push(TremorFnWrapper::new("array", "len", Intrinsic::ArrayLen));
        functions.push(TremorFnWrapper::new("system", "ingest_ns", Intrinsic::IngestNs));
        Registry { functions }
    }

    /// The function called `module::name`, if the registry has one.
    pub fn find(&self, module: &str, name: &str) -> (r: Option<&TremorFnWrapper>)
        ensures
            match r {
                Some(f) => Self::lookup(self.functions@, module@, name@, 0) matches Some(i)
                    && *f == self.functions@[i],
                None => Self::lookup(self.functions@, module@, name@, 0).is_none(),
            },
    {
        let mut i: usize = 0;
        while i < self.functions.len()
            invariant
                i <= self.functions.len(),
                Self::lookup(self.functions@, module@, name@, 0) == Self::lookup(
                    self.functions@,
                    module@,
                    name@,
                    i as int,
                ),
            decreases self.functions.len() - i,
        {
            let f = &self.functions[i];
            if crate::value::str_eq(f.module.as_str(), module) && crate::value::str_eq(
                f.name.as_str(),
                name,
            ) {
                return Some(f);
            }
            i += 1;
        }
        None
    }
}

} // verus!
