//! A loaded script and what running it on an event gives.

use vstd::prelude::*;
use crate::ast::docs::Docs;
use crate::ast::meta::NodeMetas;
use crate::ast::{Expr, InvokeAggrFn, LexicalUnit};
use crate::errors::Error;
use crate::interpreter::{
    port_view, run_body, run_stmts, Cont, ContView, Cx, Env, EventContext, LocalStack, Ran,
};
use crate::registry::CustomFn;
use crate::value::{items_view, Data, Value};

verus! {

/// Why a script with aggregate functions is run: on a tick of its window or
/// for an event. It has no bearing on a script without aggregate functions.
#[derive(Clone, Copy, Debug, PartialEq, Eq, Structural)]
pub enum AggrType {
    Tick,
    Emit,
}

/// What a script makes of an event.
#[derive(Debug, PartialEq, Eq)]
pub enum Return {
    /// The event is discarded.
    Drop,
    /// This value is sent on, to the port if one is named.
    Emit { value: Value, port: Option<String> },
    /// The event is sent on as it is, to the port if one is named.
    EmitEvent { port: Option<String> },
}

/// What a script makes of an event, as data.
pub enum ReturnView {
    Drop,
    Emit { value: Data, port: Option<Seq<char>> },
    EmitEvent { port: Option<Seq<char>> },
}

impl View for Return {
    type V = ReturnView;

    open spec fn view(&self) -> ReturnView {
        match self {
            Return::Drop => ReturnView::Drop,
            Return::Emit { value, port } => ReturnView::Emit { value: value@, port: port_view(*port) },
            Return::EmitEvent { port } => ReturnView::EmitEvent { port: port_view(*port) },
        }
    }
}

/// A script, ready to run.
#[derive(Debug, PartialEq, Eq)]
pub struct Script {
    /// Import definitions
    pub imports: Vec<LexicalUnit>,
    /// Statements of the script
    pub exprs: Vec<Expr>,
    /// Constants defined in this script
    pub consts: Vec<Value>,
    pub aggregates: Vec<InvokeAggrFn>,
    pub functions: Vec<CustomFn>,
    /// How many local variables the script has
    pub locals: usize,
    pub node_meta: NodeMetas,
    /// Documentation from the script
    pub docs: Docs,
    /// How deep expressions may be nested
    pub recursion_limit: u32,
}

/// What the end of a script's last statement means for the event: a value is
/// sent on to the default port.
pub open spec fn returned(c: ContView) -> ReturnView {
    match c {
        ContView::Cont(v) => ReturnView::Emit { value: v, port: None },
        ContView::Emit(v, port) => ReturnView::Emit { value: v, port },
        ContView::Drop => ReturnView::Drop,
        ContView::EmitEvent(port) => ReturnView::EmitEvent { port },
    }
}

/// `n` local variables that hold nothing.
pub open spec fn fresh(n: nat) -> Seq<Option<Data>> {
    Seq::new(n, |i: int| None)
}

impl Script {
    /// What the script can read when it starts on an event.
    pub open spec fn start(self, at: u64, event: Data, state: Data, meta: Data) -> Cx {
        Cx {
            event,
            state,
            meta,
            locals: fresh(self.locals as nat),
            consts: items_view(self.consts@),
            metas: self.node_meta,
            at,
            limit: self.recursion_limit as nat,
        }
    }

    /// What running the script leaves, on an event that came in at `at`.
    pub open spec fn outcome(self, at: u64, event: Data, state: Data, meta: Data) -> Ran {
        run_body(self.exprs@, self.start(at, event, state, meta), 0, 0)
    }

    /// Runs the script on an event. The statements run in order, on local
    /// variables that start empty. The first statement that emits or drops
    /// ends the run; if none does, the value of the last statement is sent on
    /// to the default port. The event, the state and the metadata are left as
    /// the statements that ran changed them, also where the run fails.
    pub fn run(
        &self,
        context: &EventContext,
        aggr: AggrType,
        event: &mut Value,
        state: &mut Value,
        meta: &mut Value,
    ) -> (r: Result<Return, Error>)
        ensures
            ({
                let ran = self.outcome(context.at, old(event)@, old(state)@, old(meta)@);
                &&& final(event)@ == ran.cx.event
                &&& final(state)@ == ran.cx.state
                &&& final(meta)@ == ran.cx.meta
                &&& match r {
                    Ok(ret) => ran.out is Ok && ret@ == returned(ran.out->Ok_0),
                    Err(e) => ran.out == Err::<ContView, Error>(e),
                }
            }),
    {
        let mut local = LocalStack::with_size(self.locals);
        assert(local@ =~= fresh(self.locals as nat));
        let env = Env {
            context,
            consts: &self.consts,
            meta: &self.node_meta,
            recursion_limit: self.recursion_limit,
        };
        match run_stmts(&self.exprs, &env, event, state, meta, &mut local, 0) {
            Ok(Cont::Drop) => Ok(Return::Drop),
            Ok(Cont::Emit(value, port)) => Ok(Return::Emit { value, port }),
            Ok(Cont::EmitEvent(port)) => Ok(Return::EmitEvent { port }),
            Ok(Cont::Cont(value)) => Ok(Return::Emit { value, port: None }),
            Err(e) => Err(e),
        }
    }
}

} // verus!
