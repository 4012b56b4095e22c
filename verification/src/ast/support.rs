//! Small questions about nodes of the tree.

use vstd::prelude::*;
use crate::ast::meta::NodeMetas;
use crate::ast::{
    Expr, ImutExpr, ImutExprInt, Literal, LocalPath, Match, Path, Pattern, PredicateClause,
    PredicatePattern, Segment,
};
use crate::pos::{Location, Range};

verus! {

impl Pattern {
    /// Whether this is the pattern of a `default` clause.
    pub fn is_default(&self) -> (r: bool)
        ensures
            r == (self is Default),
    {
        if let Pattern::Default = self {
            true
        } else {
            false
        }
    }

    /// Whether the pattern binds what fits it.
    pub fn is_assign(&self) -> (r: bool)
        ensures
            r == (self is Assign),
    {
        if let Pattern::Assign(_) = self {
            true
        } else {
            false
        }
    }
}

impl PredicatePattern {
    /// The name of the field that the test is about.
    pub open spec fn key_of(self) -> String {
        match self {
            PredicatePattern::TildeEq { key, .. } => key,
            PredicatePattern::Bin { key, .. } => key,
            PredicatePattern::RecordPatternEq { key, .. } => key,
            PredicatePattern::ArrayPatternEq { key, .. } => key,
            PredicatePattern::FieldPresent { key, .. } => key,
            PredicatePattern::FieldAbsent { key, .. } => key,
        }
    }

    /// The name of the field as the source wrote it.
    pub open spec fn lhs_of(self) -> String {
        match self {
            PredicatePattern::TildeEq { lhs, .. } => lhs,
            PredicatePattern::Bin { lhs, .. } => lhs,
            PredicatePattern::RecordPatternEq { lhs, .. } => lhs,
            PredicatePattern::ArrayPatternEq { lhs, .. } => lhs,
            PredicatePattern::FieldPresent { lhs, .. } => lhs,
            PredicatePattern::FieldAbsent { lhs, .. } => lhs,
        }
    }

    /// The name of the field that the test is about.
    pub fn key(&self) -> (r: &String)
        ensures
            *r == self.key_of(),
    {
        match self {
            PredicatePattern::TildeEq { key, .. } => key,
            PredicatePattern::Bin { key, .. } => key,
            PredicatePattern::RecordPatternEq { key, .. } => key,
            PredicatePattern::ArrayPatternEq { key, .. } => key,
            PredicatePattern::FieldPresent { key, .. } => key,
            PredicatePattern::FieldAbsent { key, .. } => key,
        }
    }

    /// The name of the field as the source wrote it.
    pub fn lhs(&self) -> (r: &String)
        ensures
            *r == self.lhs_of(),
    {
        match self {
            PredicatePattern::TildeEq { lhs, .. } => lhs,
            PredicatePattern::Bin { lhs, .. } => lhs,
            PredicatePattern::RecordPatternEq { lhs, .. } => lhs,
            PredicatePattern::ArrayPatternEq { lhs, .. } => lhs,
            PredicatePattern::FieldPresent { lhs, .. } => lhs,
            PredicatePattern::FieldAbsent { lhs, .. } => lhs,
        }
    }
}

impl Expr {
    /// The statement that only evaluates `imut`.
    pub fn from(imut: ImutExprInt) -> (r: Expr)
        ensures
            r == Expr::Imut(imut),
    {
        Expr::Imut(imut)
    }
}

impl ImutExpr {
    /// The expression that is the literal `lit`.
    pub fn from(lit: Literal) -> (r: ImutExpr)
        ensures
            r == ImutExpr(ImutExprInt::Literal(lit)),
    {
        ImutExpr(ImutExprInt::Literal(lit))
    }

    /// The index of the expression's place in the source.
    pub fn mid(&self) -> (r: usize)
        ensures
            r == self.0.mid_of(),
    {
        self.0.mid()
    }

    /// Where the expression starts.
    pub fn s(&self, meta: &NodeMetas) -> (r: Location)
        ensures
            r == meta.extent_of(self.0.mid_of()).start,
    {
        meta.extent(self.0.mid()).start
    }

    /// Where the expression ends.
    pub fn e(&self, meta: &NodeMetas) -> (r: Location)
        ensures
            r == meta.extent_of(self.0.mid_of()).end,
    {
        meta.extent(self.0.mid()).end
    }

    /// The stretch of source that the expression covers.
    pub fn extent(&self, meta: &NodeMetas) -> (r: Range)
        ensures
            r == meta.extent_of(self.0.mid_of()),
    {
        meta.extent(self.0.mid())
    }
}

/// Whether two steps of a path are the same.
pub open spec fn same_step(a: Segment, b: Segment) -> bool {
    match (a, b) {
        (Segment::Id { key: ka, mid: ma }, Segment::Id { key: kb, mid: mb }) => ka@ == kb@ && ma
            == mb,
        (Segment::Idx { idx: ia, mid: ma }, Segment::Idx { idx: ib, mid: mb }) => ia == ib && ma
            == mb,
        _ => false,
    }
}

/// Whether two runs of steps are the same.
pub open spec fn same_steps(a: Seq<Segment>, b: Seq<Segment>) -> bool {
    a.len() == b.len() && forall|i: int| 0 <= i < a.len() ==> same_step(#[trigger] a[i], b[i])
}

/// Whether two paths are the same: they start at the same place and take the
/// same steps, and stand at the same place of the source.
pub open spec fn same_path(a: Path, b: Path) -> bool {
    match (a, b) {
        (Path::Const(x), Path::Const(y)) => x.idx == y.idx && x.is_const == y.is_const && x.mid
            == y.mid && same_steps(x.segments@, y.segments@),
        (Path::Local(x), Path::Local(y)) => x.idx == y.idx && x.is_const == y.is_const && x.mid
            == y.mid && same_steps(x.segments@, y.segments@),
        (Path::Event(x), Path::Event(y)) => x.mid == y.mid && same_steps(x.segments@, y.segments@),
        (Path::State(x), Path::State(y)) => x.mid == y.mid && same_steps(x.segments@, y.segments@),
        (Path::Meta(x), Path::Meta(y)) => x.mid == y.mid && same_steps(x.segments@, y.segments@),
        _ => false,
    }
}

/// Whether an expression is the path `path`. A bare local variable counts as
/// the path to that variable without steps.
pub open spec fn is_path(path: Path, expr: ImutExprInt) -> bool {
    match expr {
        ImutExprInt::Path(p) => same_path(path, p),
        ImutExprInt::Local { idx, mid, is_const } => path matches Path::Local(lp) && lp.idx == idx
            && lp.mid == mid && lp.is_const == is_const && lp.segments@.len() == 0,
        _ => false,
    }
}

fn steps_eq(a: &Vec<Segment>, b: &Vec<Segment>) -> (r: bool)
    ensures
        r == same_steps(a@, b@),
{
    if a.len() != b.len() {
        return false;
    }
    let mut i: usize = 0;
    while i < a.len()
        invariant
            i <= a.len(),
            a.len() == b.len(),
            forall|j: int| 0 <= j < i ==> same_step(#[trigger] a@[j], b@[j]),
        decreases a.len() - i,
    {
        let same = match (&a[i], &b[i]) {
            (Segment::Id { key: ka, mid: ma }, Segment::Id { key: kb, mid: mb }) => *ka == *kb
                && *ma == *mb,
            (Segment::Idx { idx: ia, mid: ma }, Segment::Idx { idx: ib, mid: mb }) => *ia == *ib
                && *ma == *mb,
            _ => false,
        };
        if !same {
            return false;
        }
        i += 1;
    }
    true
}

fn local_eq(x: &LocalPath, y: &LocalPath) -> (r: bool)
    ensures
        r == (x.idx == y.idx && x.is_const == y.is_const && x.mid == y.mid && same_steps(
            x.segments@,
            y.segments@,
        )),
{
    x.idx == y.idx && x.is_const == y.is_const && x.mid == y.mid && steps_eq(
        &x.segments,
        &y.segments,
    )
}

/// Whether an expression is the path `path`.
pub fn path_eq(path: &Path, expr: &ImutExprInt) -> (r: bool)
    ensures
        r == is_path(*path, *expr),
{
    match expr {
        ImutExprInt::Local { idx, mid, is_const } => match path {
            Path::Local(lp) => lp.idx == *idx && lp.mid == *mid && lp.is_const == *is_const
                && lp.segments.len() == 0,
            _ => false,
        },
        ImutExprInt::Path(other) => match (path, other) {
            (Path::Const(x), Path::Const(y)) => local_eq(x, y),
            (Path::Local(x), Path::Local(y)) => local_eq(x, y),
            (Path::Event(x), Path::Event(y)) => x.mid == y.mid && steps_eq(&x.segments, &y.segments),
            (Path::State(x), Path::State(y)) => x.mid == y.mid && steps_eq(&x.segments, &y.segments),
            (Path::Meta(x), Path::Meta(y)) => x.mid == y.mid && steps_eq(&x.segments, &y.segments),
            _ => false,
        },
        _ => false,
    }
}

/// Whether a statement assigns the bare local variable `idx`.
pub open spec fn assigns_local(e: Expr, idx: usize) -> bool {
    e matches Expr::Assign { expr, .. } && (*expr matches Expr::Imut(
        ImutExprInt::Local { idx: i, .. },
    ) && i == idx)
}

/// `after` is `before` with the last use of the local variable `idx` turned
/// into a move: an assignment of the bare variable takes the value out of it
/// in place of copying it, and a `match` has this done to the last statement
/// of each of its clauses. Every other statement stays as it is.
pub open spec fn moved_out(idx: usize, before: Expr, after: Expr) -> bool
    decreases before,
{
    match before {
        Expr::Assign { mid, path, expr } => if assigns_local(before, idx) {
            after == (Expr::AssignMoveLocal { mid, idx, path })
        } else {
            after == before
        },
        Expr::Match(m) => after matches Expr::Match(n) && n.mid == m.mid && n.target == m.target
            && n.patterns@.len() == m.patterns@.len() && forall|i: int|
            0 <= i < m.patterns@.len() ==> moved_out_of_clause(
                idx,
                #[trigger] m.patterns@[i],
                n.patterns@[i],
            ),
        _ => after == before,
    }
}

/// `after` is the clause `before` with the last use of the local variable
/// `idx` in its last statement turned into a move.
pub open spec fn moved_out_of_clause(idx: usize, before: PredicateClause, after: PredicateClause) -> bool
    decreases before,
{
    &&& after.mid == before.mid
    &&& after.pattern == before.pattern
    &&& after.guard == before.guard
    &&& after.exprs@.len() == before.exprs@.len()
    &&& forall|j: int|
        0 <= j < before.exprs@.len() - 1 ==> (#[trigger] after.exprs@[j]) == before.exprs@[j]
    &&& before.exprs@.len() > 0 ==> moved_out(idx, before.exprs@.last(), after.exprs@.last())
}

/// Turns the last use of the local variable `replace_idx` in a statement into
/// a move.
pub fn replace_last_shadow_use(replace_idx: usize, expr: Expr) -> (r: Expr)
    ensures
        moved_out(replace_idx, expr, r),
    decreases expr,
{
    match expr {
        Expr::Assign { path, expr, mid } => {
            let moves = match &*expr {
                Expr::Imut(ImutExprInt::Local { idx, .. }) => *idx == replace_idx,
                _ => false,
            };
            if moves {
                Expr::AssignMoveLocal { mid, idx: replace_idx, path }
            } else {
                Expr::Assign { path, expr, mid }
            }
        },
        Expr::Match(m) => {
            let Match { mid, target, patterns } = *m;
            let ghost before = patterns@;
            let mut done: Vec<PredicateClause> = Vec::new();
            // In each clause the use in the last statement can be replaced.
            for p in it: patterns
                invariant
                    before == it.seq(),
                    expr is Match,
                    expr->Match_0.patterns@ == before,
                    done@.len() == it.index(),
                    forall|i: int|
                        0 <= i < it.index() ==> moved_out_of_clause(
                            replace_idx,
                            #[trigger] before[i],
                            done@[i],
                        ),
            {
                let ghost k = it.index() as int;
                let ghost whole = expr->Match_0.patterns;
                assert(p == whole@[k]);
                assert(decreases_to!(whole => whole@[k]));
                let ghost clause = p;
                let PredicateClause { mid: cmid, pattern, guard, exprs } = p;
                let mut exprs = exprs;
                let ghost body = exprs@;
                match exprs.pop() {
                    Some(last) => {
                        assert(last == body.last());
                        assert(clause.exprs@ == body);
                        assert(decreases_to!(clause.exprs => clause.exprs@[body.len() - 1]));
                        let moved = replace_last_shadow_use(replace_idx, last);
                        exprs.push(moved);
                    },
                    None => {},
                }
                done.push(PredicateClause { mid: cmid, pattern, guard, exprs });
            }
            Expr::Match(Box::new(Match { mid, target, patterns: done }))
        },
        other => other,
    }
}

} // verus!
