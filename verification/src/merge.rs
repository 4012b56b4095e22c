//! Merging one record into another.

use vstd::prelude::*;
use crate::value::{
    fields_view, lemma_object_view, lemma_position, with_field_keeps_names_apart,
    without_field_keeps_names_apart, Data, Field, Value,
};

verus! {

/// `target` with `with` merged into it. A record is merged into a record
/// field by field, in the order in which `with` holds them: a field that is
/// null in `with` leaves the result; a field that the result has already is
/// merged with the one that stands there; any other field is added. Where
/// either of the two is no record, the result is `with`.
pub open spec fn merged(target: Data, with: Data) -> Data
    decreases with, 0int,
{
    match with {
        Data::Object(news) => if target is Object {
            merged_upto(target, news, news.len() as int)
        } else {
            with
        },
        _ => with,
    }
}

/// `target` with the first `upto` fields of `news` merged into it.
pub open spec fn merged_upto(target: Data, news: Seq<Field>, upto: int) -> Data
    decreases news, upto,
{
    if upto <= 0 || upto > news.len() {
        target
    } else {
        let sofar = merged_upto(target, news, upto - 1);
        let f = news[upto - 1];
        if f.value is Null {
            sofar.without_field(f.name)
        } else {
            match sofar.field(f.name) {
                Some(there) => sofar.with_field(f.name, merged(there, f.value)),
                None => sofar.with_field(f.name, f.value),
            }
        }
    }
}

/// Merging fields into a record gives a record.
pub proof fn merged_stays_a_record(target: Data, news: Seq<Field>, upto: int)
    requires
        target is Object,
    ensures
        merged_upto(target, news, upto) is Object,
    decreases upto,
{
    if !(upto <= 0 || upto > news.len()) {
        merged_stays_a_record(target, news, upto - 1);
    }
}

/// Merging keeps records in order: where no record names a field twice in
/// the target nor in what is merged in, none does in the result.
pub proof fn merging_keeps_names_apart(target: Data, with: Data)
    requires
        target.wf(),
        with.wf(),
    ensures
        merged(target, with).wf(),
    decreases with, 0int,
{
    if with is Object && target is Object {
        merging_fields_keeps_names_apart(target, with->Object_0, with->Object_0.len() as int);
    }
}

/// The same of the first `upto` fields.
pub proof fn merging_fields_keeps_names_apart(target: Data, news: Seq<Field>, upto: int)
    requires
        target.wf(),
        target is Object,
        forall|i: int| 0 <= i < news.len() ==> (#[trigger] news[i]).value.wf(),
    ensures
        merged_upto(target, news, upto).wf(),
        merged_upto(target, news, upto) is Object,
    decreases news, upto,
{
    if !(upto <= 0 || upto > news.len()) {
        merging_fields_keeps_names_apart(target, news, upto - 1);
        let sofar = merged_upto(target, news, upto - 1);
        let f = news[upto - 1];
        assert(f.value.wf());
        if f.value is Null {
            without_field_keeps_names_apart(sofar, f.name);
        } else {
            match sofar.field(f.name) {
                Some(there) => {
                    lemma_position(sofar->Object_0, f.name, 0);
                    assert(there.wf());
                    merging_keeps_names_apart(there, f.value);
                    with_field_keeps_names_apart(sofar, f.name, merged(there, f.value));
                },
                None => {
                    with_field_keeps_names_apart(sofar, f.name, f.value);
                },
            }
        }
    }
}

/// A record merged with a record is a record; merged with the empty record
/// it is itself.
pub proof fn merging_records(target: Data, with: Data)
    requires
        target is Object,
        with is Object,
    ensures
        merged(target, with) is Object,
        with->Object_0.len() == 0 ==> merged(target, with) == target,
{
    merged_stays_a_record(target, with->Object_0, with->Object_0.len() as int);
}

/// A merge sets a field that the target does not have to the value that
/// comes with it, and takes out a field that comes as null: what one field
/// does to a record.
pub proof fn merging_one_field(target: Data, f: Field)
    requires
        target is Object,
    ensures
        f.value is Null ==> merged(target, Data::Object(seq![f])) == target.without_field(f.name),
        !(f.value is Null) && target.field(f.name).is_none() ==> merged(target, Data::Object(seq![f]))
            == target.with_field(f.name, f.value),
        !(f.value is Null) && target.field(f.name).is_some() ==> merged(target, Data::Object(seq![f]))
            == target.with_field(f.name, merged(target.field(f.name).unwrap(), f.value)),
{
    let news = seq![f];
    reveal_with_fuel(merged_upto, 2);
    assert(merged_upto(target, news, 0) == target);
    assert(news[0] == f);
}

/// Merges `with` into `target`.
pub fn merge_values(target: Value, with: &Value) -> (r: Value)
    ensures
        r@ == merged(target@, with@),
        target@.wf() && with@.wf() ==> r@.wf(),
    decreases *with,
{
    proof {
        if target@.wf() && with@.wf() {
            merging_keeps_names_apart(target@, with@);
        }
    }
    match with {
        Value::Object(news) => {
            proof {
                lemma_object_view(*news);
            }
            if !matches!(target, Value::Object(_)) {
                return with.clone();
            }
            let ghost start = target@;
            let ghost fresh = fields_view(news@);
            let mut out = target;
            let mut i: usize = 0;
            while i < news.len()
                invariant
                    i <= news.len(),
                    *with == Value::Object(*news),
                    fresh == fields_view(news@),
                    start is Object,
                    out@ == merged_upto(start, fresh, i as int),
                decreases news.len() - i,
            {
                assert(decreases_to!(*news => news@[i as int]));
                assert(with->Object_0 == *news);
                assert(fresh[i as int] == (Field { name: news@[i as int].0@, value: news@[i as int].1@ }));
                let name = &news[i].0;
                let value = &news[i].1;
                if matches!(value, Value::Null) {
                    out.remove(name.as_str());
                } else {
                    let there = match out.get(name.as_str()) {
                        Some(v) => Some(v.clone()),
                        None => None,
                    };
                    match there {
                        Some(v) => {
                            let m = merge_values(v, value);
                            out.insert(name.clone(), m);
                        },
                        None => {
                            out.insert(name.clone(), value.clone());
                        },
                    }
                }
                i += 1;
            }
            out
        },
        _ => with.clone(),
    }
}

} // verus!
