//! What a pattern binds once a value fits it: the results of the extractors
//! in it, each to its local variable, in the order of the pattern.

use vstd::prelude::*;
use crate::ast::{ArrayPredicatePattern, PredicatePattern};
use crate::interpreter::{bind, bind_local, Fit, LocalStack};
use crate::value::{items_view, lemma_array_view, Data, Value};

verus! {

/// The local variables after the first `upto` tests of a record pattern bound
/// what they bind in `target`: an extractor binds what it gives for its field,
/// and a pattern for a field binds what it binds in that field.
pub open spec fn record_bindings(
    tests: Seq<PredicatePattern>,
    target: Data,
    locals: Seq<Option<Data>>,
    upto: int,
) -> Seq<Option<Data>>
    decreases tests, upto,
{
    if upto <= 0 || upto > tests.len() {
        locals
    } else {
        let so_far = record_bindings(tests, target, locals, upto - 1);
        match tests[upto - 1] {
            PredicatePattern::TildeEq { key, idx, test, .. } => match target.field(key@) {
                Some(v) => match test.extractor.extracts(v) {
                    Some(found) => bind(so_far, idx, found),
                    None => so_far,
                },
                None => so_far,
            },
            PredicatePattern::RecordPatternEq { key, pattern, .. } => match target.field(key@) {
                Some(v) => record_bindings(pattern.fields@, v, so_far, pattern.fields@.len() as int),
                None => so_far,
            },
            PredicatePattern::ArrayPatternEq { key, pattern, .. } => match target.field(key@) {
                Some(Data::Array(items)) => element_bindings(
                    pattern.exprs@,
                    items,
                    so_far,
                    pattern.exprs@.len() as int,
                ),
                _ => so_far,
            },
            _ => so_far,
        }
    }
}

/// The local variables after the first `upto` tests of an array pattern bound
/// what they bind in the elements that they test.
pub open spec fn element_bindings(
    tests: Seq<ArrayPredicatePattern>,
    items: Seq<Data>,
    locals: Seq<Option<Data>>,
    upto: int,
) -> Seq<Option<Data>>
    decreases tests, upto,
{
    if upto <= 0 || upto > tests.len() {
        locals
    } else {
        let so_far = element_bindings(tests, items, locals, upto - 1);
        match tests[upto - 1] {
            ArrayPredicatePattern::Record(rp) => if upto - 1 < items.len() {
                record_bindings(rp.fields@, items[upto - 1], so_far, rp.fields@.len() as int)
            } else {
                so_far
            },
            _ => so_far,
        }
    }
}

/// Whether the first `upto` tests of a record pattern hold no extractor,
/// however deep.
pub open spec fn plain_record(tests: Seq<PredicatePattern>, upto: int) -> bool
    decreases tests, upto,
{
    upto <= 0 || upto > tests.len() || (plain_record(tests, upto - 1) && match tests[upto - 1] {
        PredicatePattern::TildeEq { .. } => false,
        PredicatePattern::RecordPatternEq { pattern, .. } => plain_record(
            pattern.fields@,
            pattern.fields@.len() as int,
        ),
        PredicatePattern::ArrayPatternEq { pattern, .. } => plain_elements(
            pattern.exprs@,
            pattern.exprs@.len() as int,
        ),
        _ => true,
    })
}

/// Whether the first `upto` tests of an array pattern hold no extractor that
/// binds, however deep.
pub open spec fn plain_elements(tests: Seq<ArrayPredicatePattern>, upto: int) -> bool
    decreases tests, upto,
{
    upto <= 0 || upto > tests.len() || (plain_elements(tests, upto - 1) && match tests[upto - 1] {
        ArrayPredicatePattern::Record(rp) => plain_record(rp.fields@, rp.fields@.len() as int),
        _ => true,
    })
}

/// A record pattern without extractors binds nothing.
pub proof fn plain_record_binds_nothing(
    tests: Seq<PredicatePattern>,
    target: Data,
    locals: Seq<Option<Data>>,
    upto: int,
)
    requires
        plain_record(tests, upto),
    ensures
        record_bindings(tests, target, locals, upto) == locals,
    decreases tests, upto,
{
    if 0 < upto <= tests.len() {
        plain_record_binds_nothing(tests, target, locals, upto - 1);
        match tests[upto - 1] {
            PredicatePattern::RecordPatternEq { key, pattern, .. } => {
                if target.field(key@) is Some {
                    plain_record_binds_nothing(
                        pattern.fields@,
                        target.field(key@)->0,
                        locals,
                        pattern.fields@.len() as int,
                    );
                }
            },
            PredicatePattern::ArrayPatternEq { key, pattern, .. } => {
                match target.field(key@) {
                    Some(Data::Array(items)) => {
                        plain_elements_bind_nothing(
                            pattern.exprs@,
                            items,
                            locals,
                            pattern.exprs@.len() as int,
                        );
                    },
                    _ => {},
                }
            },
            _ => {},
        }
    }
}

/// An array pattern without extractors that bind binds nothing.
pub proof fn plain_elements_bind_nothing(
    tests: Seq<ArrayPredicatePattern>,
    items: Seq<Data>,
    locals: Seq<Option<Data>>,
    upto: int,
)
    requires
        plain_elements(tests, upto),
    ensures
        element_bindings(tests, items, locals, upto) == locals,
    decreases tests, upto,
{
    if 0 < upto <= tests.len() {
        plain_elements_bind_nothing(tests, items, locals, upto - 1);
        match tests[upto - 1] {
            ArrayPredicatePattern::Record(rp) => {
                if upto - 1 < items.len() {
                    plain_record_binds_nothing(
                        rp.fields@,
                        items[upto - 1],
                        locals,
                        rp.fields@.len() as int,
                    );
                }
            },
            _ => {},
        }
    }
}

/// Whether a record pattern holds no extractor.
pub fn is_plain_record(tests: &Vec<PredicatePattern>) -> (r: bool)
    ensures
        r == plain_record(tests@, tests@.len() as int),
    decreases tests@, tests@.len(),
{
    let mut i: usize = 0;
    while i < tests.len()
        invariant
            i <= tests.len(),
            plain_record(tests@, i as int),
        decreases tests.len() - i,
    {
        let plain = match &tests[i] {
            PredicatePattern::TildeEq { .. } => false,
            PredicatePattern::RecordPatternEq { pattern, .. } => is_plain_record(&pattern.fields),
            PredicatePattern::ArrayPatternEq { pattern, .. } => is_plain_elements(&pattern.exprs),
            _ => true,
        };
        if !plain {
            proof {
                assert(!plain_record(tests@, i + 1));
                lemma_not_plain_record(tests@, i + 1, tests@.len() as int);
            }
            return false;
        }
        i += 1;
    }
    true
}

/// Whether an array pattern holds no extractor that binds.
pub fn is_plain_elements(tests: &Vec<ArrayPredicatePattern>) -> (r: bool)
    ensures
        r == plain_elements(tests@, tests@.len() as int),
    decreases tests@, tests@.len(),
{
    let mut i: usize = 0;
    while i < tests.len()
        invariant
            i <= tests.len(),
            plain_elements(tests@, i as int),
        decreases tests.len() - i,
    {
        let plain = match &tests[i] {
            ArrayPredicatePattern::Record(rp) => is_plain_record(&rp.fields),
            _ => true,
        };
        if !plain {
            proof {
                assert(!plain_elements(tests@, i + 1));
                lemma_not_plain_elements(tests@, i + 1, tests@.len() as int);
            }
            return false;
        }
        i += 1;
    }
    true
}

proof fn lemma_not_plain_record(tests: Seq<PredicatePattern>, i: int, n: int)
    requires
        0 < i <= n <= tests.len(),
        !plain_record(tests, i),
    ensures
        !plain_record(tests, n),
    decreases n - i,
{
    if i < n {
        lemma_not_plain_record(tests, i, n - 1);
    }
}

proof fn lemma_not_plain_elements(tests: Seq<ArrayPredicatePattern>, i: int, n: int)
    requires
        0 < i <= n <= tests.len(),
        !plain_elements(tests, i),
    ensures
        !plain_elements(tests, n),
    decreases n - i,
{
    if i < n {
        lemma_not_plain_elements(tests, i, n - 1);
    }
}

/// Binds what the tests of a record pattern bind in `target`.
pub fn bind_record(tests: &Vec<PredicatePattern>, target: &Value, local: &mut LocalStack)
    ensures
        final(local)@ == record_bindings(tests@, target@, old(local)@, tests@.len() as int),
    decreases tests@, tests@.len(),
{
    let ghost start = local@;
    let mut i: usize = 0;
    while i < tests.len()
        invariant
            i <= tests.len(),
            local@ == record_bindings(tests@, target@, start, i as int),
        decreases tests.len() - i,
    {
        match &tests[i] {
            PredicatePattern::TildeEq { key, idx, test, .. } => {
                match target.get(key.as_str()) {
                    Some(v) => match test.extractor.extract(v) {
                        Some(found) => {
                            bind_local(local, *idx, found);
                        },
                        None => {},
                    },
                    None => {},
                }
            },
            PredicatePattern::RecordPatternEq { key, pattern, .. } => {
                match target.get(key.as_str()) {
                    Some(v) => {
                        bind_record(&pattern.fields, v, local);
                    },
                    None => {},
                }
            },
            PredicatePattern::ArrayPatternEq { key, pattern, .. } => {
                match target.get(key.as_str()) {
                    Some(Value::Array(items)) => {
                        proof {
                            lemma_array_view(*items);
                        }
                        bind_elements(&pattern.exprs, items, local);
                    },
                    _ => {},
                }
            },
            _ => {},
        }
        i += 1;
    }
}

/// Binds what the tests of an array pattern bind in the elements.
pub fn bind_elements(tests: &Vec<ArrayPredicatePattern>, items: &Vec<Value>, local: &mut LocalStack)
    ensures
        final(local)@ == element_bindings(
            tests@,
            items_view(items@),
            old(local)@,
            tests@.len() as int,
        ),
    decreases tests@, tests@.len(),
{
    let ghost start = local@;
    let mut i: usize = 0;
    while i < tests.len()
        invariant
            i <= tests.len(),
            local@ == element_bindings(tests@, items_view(items@), start, i as int),
        decreases tests.len() - i,
    {
        match &tests[i] {
            ArrayPredicatePattern::Record(rp) => {
                if i < items.len() {
                    bind_record(&rp.fields, &items[i], local);
                }
            },
            _ => {},
        }
        i += 1;
    }
}

/// What a record pattern that `target` fits leaves of the local variables.
pub fn bound_by_record(tests: &Vec<PredicatePattern>, target: &Value, local: &LocalStack) -> (r: Fit)
    ensures
        r.outcome(local@) == Some(
            record_bindings(tests@, target@, local@, tests@.len() as int),
        ),
{
    if is_plain_record(tests) {
        proof {
            plain_record_binds_nothing(tests@, target@, local@, tests@.len() as int);
        }
        Fit::Same
    } else {
        let mut bound = local.clone();
        bind_record(tests, target, &mut bound);
        Fit::Bound(bound)
    }
}

/// What an array pattern that the elements fit leaves of the local variables.
pub fn bound_by_elements(tests: &Vec<ArrayPredicatePattern>, items: &Vec<Value>, local: &LocalStack) -> (r:
    Fit)
    ensures
        r.outcome(local@) == Some(
            element_bindings(tests@, items_view(items@), local@, tests@.len() as int),
        ),
{
    if is_plain_elements(tests) {
        proof {
            plain_elements_bind_nothing(tests@, items_view(items@), local@, tests@.len() as int);
        }
        Fit::Same
    } else {
        let mut bound = local.clone();
        bind_elements(tests, items, &mut bound);
        Fit::Bound(bound)
    }
}

} // verus!
