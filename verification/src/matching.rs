//! Which clause of a `match` is selected: the first that is hit.

use vstd::prelude::*;
use crate::ast::{ImutPredicateClause, PredicateClause};
use crate::errors::{Error, ErrorKind};
use crate::interpreter::{select, select_imut, try_clause, try_imut_clause, Cx, Ran};
use crate::value::Data;

verus! {

/// The first clause from `from` on that is hit by `target`, if there is one.
/// A clause whose pattern or guard cannot be evaluated counts as hit: the
/// `match` ends there, with that error.
pub open spec fn selected(
    clauses: Seq<PredicateClause>,
    target: Data,
    cx: Cx,
    depth: nat,
    from: int,
) -> Option<int>
    decreases clauses.len() - from,
{
    if from < 0 || from >= clauses.len() {
        None
    } else if try_clause(clauses[from], target, cx, depth).is_some() {
        Some(from)
    } else {
        selected(clauses, target, cx, depth, from + 1)
    }
}

/// The first clause of a `match` expression from `from` on that is hit.
pub open spec fn selected_imut(
    clauses: Seq<ImutPredicateClause>,
    target: Data,
    cx: Cx,
    depth: nat,
    from: int,
) -> Option<int>
    decreases clauses.len() - from,
{
    if from < 0 || from >= clauses.len() {
        None
    } else if try_imut_clause(clauses[from], target, cx, depth).is_some() {
        Some(from)
    } else {
        selected_imut(clauses, target, cx, depth, from + 1)
    }
}

/// First match wins: a `match` statement does what its first clause that is
/// hit does, whatever the clauses after it are; no clause before it is hit;
/// and where no clause is hit the statement fails with `NoClauseHit`. What is
/// selected depends on the clauses, their order, the value and what the script
/// can read, and on nothing else: the same `match` on the same value selects
/// the same clause every time.
pub proof fn first_match_wins(
    clauses: Seq<PredicateClause>,
    target: Data,
    cx: Cx,
    depth: nat,
    from: int,
    mid: usize,
)
    requires
        0 <= from <= clauses.len(),
    ensures
        match selected(clauses, target, cx, depth, from) {
            Some(k) => from <= k < clauses.len() && try_clause(clauses[k], target, cx, depth).is_some()
                && select(clauses, target, cx, depth, from, mid) == try_clause(
                clauses[k],
                target,
                cx,
                depth,
            ).unwrap() && forall|j: int|
                from <= j < k ==> (#[trigger] try_clause(clauses[j], target, cx, depth)).is_none(),
            None => select(clauses, target, cx, depth, from, mid) == (Ran {
                cx,
                out: Err(Error::at(cx.metas.extent_of(mid), ErrorKind::NoClauseHit)),
            }) && forall|j: int|
                from <= j < clauses.len() ==> (#[trigger] try_clause(
                    clauses[j],
                    target,
                    cx,
                    depth,
                )).is_none(),
        },
    decreases clauses.len() - from,
{
    if from < clauses.len() {
        if try_clause(clauses[from], target, cx, depth).is_none() {
            first_match_wins(clauses, target, cx, depth, from + 1, mid);
        }
    }
}

/// First match wins, for `match` expressions.
pub proof fn first_match_wins_imut(
    clauses: Seq<ImutPredicateClause>,
    target: Data,
    cx: Cx,
    depth: nat,
    from: int,
    mid: usize,
)
    requires
        0 <= from <= clauses.len(),
    ensures
        match selected_imut(clauses, target, cx, depth, from) {
            Some(k) => from <= k < clauses.len() && try_imut_clause(
                clauses[k],
                target,
                cx,
                depth,
            ).is_some() && select_imut(clauses, target, cx, depth, from, mid) == try_imut_clause(
                clauses[k],
                target,
                cx,
                depth,
            ).unwrap() && forall|j: int|
                from <= j < k ==> (#[trigger] try_imut_clause(
                    clauses[j],
                    target,
                    cx,
                    depth,
                )).is_none(),
            None => select_imut(clauses, target, cx, depth, from, mid) == Err::<Data, Error>(
                Error::at(cx.metas.extent_of(mid), ErrorKind::NoClauseHit),
            ) && forall|j: int|
                from <= j < clauses.len() ==> (#[trigger] try_imut_clause(
                    clauses[j],
                    target,
                    cx,
                    depth,
                )).is_none(),
        },
    decreases clauses.len() - from,
{
    if from < clauses.len() {
        if try_imut_clause(clauses[from], target, cx, depth).is_none() {
            first_match_wins_imut(clauses, target, cx, depth, from + 1, mid);
        }
    }
}

/// Clauses after the one that is hit have no say: two lists of clauses that
/// agree up to and with the first clause that is hit make the same of a value.
pub proof fn later_clauses_do_not_matter(
    a: Seq<PredicateClause>,
    b: Seq<PredicateClause>,
    target: Data,
    cx: Cx,
    depth: nat,
    mid: usize,
    k: int,
)
    requires
        0 <= k < a.len(),
        k < b.len(),
        selected(a, target, cx, depth, 0) == Some(k),
        forall|j: int| 0 <= j <= k ==> a[j] == b[j],
    ensures
        select(a, target, cx, depth, 0, mid) == select(b, target, cx, depth, 0, mid),
{
    first_match_wins(a, target, cx, depth, 0, mid);
    assert forall|j: int| 0 <= j < k implies (#[trigger] try_clause(b[j], target, cx, depth)).is_none() by {
        assert(try_clause(a[j], target, cx, depth).is_none());
    }
    lemma_selected_prefix(b, target, cx, depth, 0, k);
    first_match_wins(b, target, cx, depth, 0, mid);
}

/// Where the clauses before `k` are not hit and the clause `k` is, the clause
/// `k` is the one selected.
pub proof fn lemma_selected_prefix(
    clauses: Seq<PredicateClause>,
    target: Data,
    cx: Cx,
    depth: nat,
    from: int,
    k: int,
)
    requires
        0 <= from <= k < clauses.len(),
        forall|j: int| from <= j < k ==> (#[trigger] try_clause(clauses[j], target, cx, depth)).is_none(),
        try_clause(clauses[k], target, cx, depth).is_some(),
    ensures
        selected(clauses, target, cx, depth, from) == Some(k),
    decreases k - from,
{
    if from < k {
        assert(try_clause(clauses[from], target, cx, depth).is_none());
        lemma_selected_prefix(clauses, target, cx, depth, from + 1, k);
    }
}

} // verus!
