//! Patching a record: a list of changes to its fields, made in order.

pub mod steps;

use vstd::prelude::*;
use crate::errors::ErrorKind;
use crate::merge::{merge_values, merged, merging_keeps_names_apart};
use crate::value::{
    lemma_position, with_field_keeps_names_apart, without_field_keeps_names_apart, Data, Value,
};

verus! {

/// A change to a record, with its names and values worked out.
#[derive(Debug, PartialEq, Eq)]
pub enum Change {
    Insert { key: String, value: Value },
    Upsert { key: String, value: Value },
    Update { key: String, value: Value },
    Erase { key: String },
    Copy { from: String, to: String },
    Move { from: String, to: String },
    Merge { key: String, value: Value },
    TupleMerge { value: Value },
}

/// What a change is, apart from how it is stored.
pub enum ChangeView {
    Insert { key: Seq<char>, value: Data },
    Upsert { key: Seq<char>, value: Data },
    Update { key: Seq<char>, value: Data },
    Erase { key: Seq<char> },
    Copy { from: Seq<char>, to: Seq<char> },
    Move { from: Seq<char>, to: Seq<char> },
    Merge { key: Seq<char>, value: Data },
    TupleMerge { value: Data },
}

impl View for Change {
    type V = ChangeView;

    open spec fn view(&self) -> ChangeView {
        match self {
            Change::Insert { key, value } => ChangeView::Insert { key: key@, value: value@ },
            Change::Upsert { key, value } => ChangeView::Upsert { key: key@, value: value@ },
            Change::Update { key, value } => ChangeView::Update { key: key@, value: value@ },
            Change::Erase { key } => ChangeView::Erase { key: key@ },
            Change::Copy { from, to } => ChangeView::Copy { from: from@, to: to@ },
            Change::Move { from, to } => ChangeView::Move { from: from@, to: to@ },
            Change::Merge { key, value } => ChangeView::Merge { key: key@, value: value@ },
            Change::TupleMerge { value } => ChangeView::TupleMerge { value: value@ },
        }
    }
}

/// The record with a field added that it does not have yet.
pub open spec fn inserted(target: Data, key: Seq<char>, value: Data) -> Result<Data, ErrorKind> {
    if target.field(key).is_some() {
        Err(ErrorKind::PatchKeyExists)
    } else {
        Ok(target.with_field(key, value))
    }
}

/// The record with a field replaced that it has.
pub open spec fn updated(target: Data, key: Seq<char>, value: Data) -> Result<Data, ErrorKind> {
    if target.field(key).is_some() {
        Ok(target.with_field(key, value))
    } else {
        Err(ErrorKind::UpdateKeyMissing)
    }
}

/// The record with the value of `from` under the new name `to` as well; the
/// record itself where it has no field `from`.
pub open spec fn copied(target: Data, from: Seq<char>, to: Seq<char>) -> Result<Data, ErrorKind> {
    if target.field(to).is_some() {
        Err(ErrorKind::PatchKeyExists)
    } else {
        match target.field(from) {
            Some(v) => Ok(target.with_field(to, v)),
            None => Ok(target),
        }
    }
}

/// The record with the value of `from` under the new name `to` instead; the
/// record itself where it has no field `from`.
pub open spec fn moved(target: Data, from: Seq<char>, to: Seq<char>) -> Result<Data, ErrorKind> {
    if target.field(to).is_some() {
        Err(ErrorKind::PatchKeyExists)
    } else {
        match target.field(from) {
            Some(v) => Ok(target.without_field(from).with_field(to, v)),
            None => Ok(target),
        }
    }
}

/// The record with `value` merged into the record under `key`, or into an
/// empty record where nothing stands there.
pub open spec fn merged_at(target: Data, key: Seq<char>, value: Data) -> Result<Data, ErrorKind> {
    match target.field(key) {
        Some(there) => if there is Object {
            Ok(target.with_field(key, merged(there, value)))
        } else {
            Err(ErrorKind::MergeTypeConflict(there.value_type()))
        },
        None => Ok(target.with_field(key, merged(Data::Object(Seq::empty()), value))),
    }
}

/// The record `target` after one change, or why the change cannot be made.
/// `Insert` needs a name that the record does not have, `Update` one that it
/// has, and `Upsert` takes either. `Copy` and `Move` need a new name that the
/// record does not have, and do nothing where it lacks the old one. `Merge`
/// merges into the record that stands under the name, and fails on any other
/// value there.
pub open spec fn changed(target: Data, c: ChangeView) -> Result<Data, ErrorKind> {
    match c {
        ChangeView::Insert { key, value } => inserted(target, key, value),
        ChangeView::Upsert { key, value } => Ok(target.with_field(key, value)),
        ChangeView::Update { key, value } => updated(target, key, value),
        ChangeView::Erase { key } => Ok(target.without_field(key)),
        ChangeView::Copy { from, to } => copied(target, from, to),
        ChangeView::Move { from, to } => moved(target, from, to),
        ChangeView::Merge { key, value } => merged_at(target, key, value),
        ChangeView::TupleMerge { value } => Ok(merged(target, value)),
    }
}

/// Whether no record in the value that a change brings names a field twice.
pub open spec fn brings_order(c: ChangeView) -> bool {
    match c {
        ChangeView::Insert { value, .. } => value.wf(),
        ChangeView::Upsert { value, .. } => value.wf(),
        ChangeView::Update { value, .. } => value.wf(),
        ChangeView::Merge { value, .. } => value.wf(),
        ChangeView::TupleMerge { value } => value.wf(),
        _ => true,
    }
}

/// A value in which no record names a field twice holds only such values
/// under its names.
pub proof fn fields_are_in_order(record: Data, key: Seq<char>)
    requires
        record.wf(),
    ensures
        record.field(key) matches Some(v) ==> v.wf(),
{
    if record is Object {
        lemma_position(record->Object_0, key, 0);
    }
}

/// Changes keep records in order: where no record names a field twice in
/// the target nor in what the change brings, none does in what the change
/// makes.
pub proof fn changes_keep_names_apart(target: Data, c: ChangeView)
    requires
        target.wf(),
        brings_order(c),
    ensures
        changed(target, c) matches Ok(v) ==> v.wf(),
{
    match c {
        ChangeView::Insert { key, value } => {
            with_field_keeps_names_apart(target, key, value);
        },
        ChangeView::Upsert { key, value } => {
            with_field_keeps_names_apart(target, key, value);
        },
        ChangeView::Update { key, value } => {
            with_field_keeps_names_apart(target, key, value);
        },
        ChangeView::Erase { key } => {
            without_field_keeps_names_apart(target, key);
        },
        ChangeView::Copy { from, to } => {
            fields_are_in_order(target, from);
            if target.field(from).is_some() {
                with_field_keeps_names_apart(target, to, target.field(from).unwrap());
            }
        },
        ChangeView::Move { from, to } => {
            fields_are_in_order(target, from);
            without_field_keeps_names_apart(target, from);
            if target.field(from).is_some() {
                with_field_keeps_names_apart(target.without_field(from), to, target.field(from).unwrap());
            }
        },
        ChangeView::Merge { key, value } => {
            fields_are_in_order(target, key);
            match target.field(key) {
                Some(there) => {
                    merging_keeps_names_apart(there, value);
                    with_field_keeps_names_apart(target, key, merged(there, value));
                },
                None => {
                    let fresh = Data::Object(Seq::empty());
                    merging_keeps_names_apart(fresh, value);
                    with_field_keeps_names_apart(target, key, merged(fresh, value));
                },
            }
        },
        ChangeView::TupleMerge { value } => {
            merging_keeps_names_apart(target, value);
        },
    }
}

/// Whether `r` is what the change makes of the record.
pub open spec fn makes(r: Result<Value, ErrorKind>, spec: Result<Data, ErrorKind>) -> bool {
    match r {
        Ok(v) => spec == Ok::<Data, ErrorKind>(v@),
        Err(k) => spec == Err::<Data, ErrorKind>(k),
    }
}

/// A copy of the field `key`, if the record has it.
fn copy_of(target: &Value, key: &str) -> (r: Option<Value>)
    ensures
        match r {
            Some(v) => target@.field(key@) == Some(v@),
            None => target@.field(key@).is_none(),
        },
{
    match target.get(key) {
        Some(v) => Some(v.clone()),
        None => None,
    }
}

/// Whether the record has a field `key`.
fn has(target: &Value, key: &str) -> (r: bool)
    ensures
        r == target@.field(key@).is_some(),
{
    target.get(key).is_some()
}

/// The record with the field `key` set.
fn set(target: Value, key: String, value: Value) -> (r: Value)
    ensures
        r@ == target@.with_field(key@, value@),
{
    let mut target = target;
    target.insert(key, value);
    target
}

fn insert_new(target: Value, key: String, value: Value) -> (r: Result<Value, ErrorKind>)
    ensures
        makes(r, inserted(target@, key@, value@)),
{
    if has(&target, key.as_str()) {
        Err(ErrorKind::PatchKeyExists)
    } else {
        Ok(set(target, key, value))
    }
}

fn update(target: Value, key: String, value: Value) -> (r: Result<Value, ErrorKind>)
    ensures
        makes(r, updated(target@, key@, value@)),
{
    if has(&target, key.as_str()) {
        Ok(set(target, key, value))
    } else {
        Err(ErrorKind::UpdateKeyMissing)
    }
}

fn erase(target: Value, key: String) -> (r: Value)
    ensures
        r@ == target@.without_field(key@),
{
    let mut target = target;
    target.remove(key.as_str());
    target
}

fn copy_field(target: Value, from: String, to: String) -> (r: Result<Value, ErrorKind>)
    ensures
        makes(r, copied(target@, from@, to@)),
{
    if has(&target, to.as_str()) {
        Err(ErrorKind::PatchKeyExists)
    } else {
        match copy_of(&target, from.as_str()) {
            Some(v) => Ok(set(target, to, v)),
            None => Ok(target),
        }
    }
}

fn move_field(target: Value, from: String, to: String) -> (r: Result<Value, ErrorKind>)
    ensures
        makes(r, moved(target@, from@, to@)),
{
    if has(&target, to.as_str()) {
        Err(ErrorKind::PatchKeyExists)
    } else {
        let mut target = target;
        match target.remove(from.as_str()) {
            Some(v) => Ok(set(target, to, v)),
            None => Ok(target),
        }
    }
}

fn merge_at(target: Value, key: String, value: Value) -> (r: Result<Value, ErrorKind>)
    ensures
        makes(r, merged_at(target@, key@, value@)),
{
    match copy_of(&target, key.as_str()) {
        Some(there) => {
            if matches!(there, Value::Object(_)) {
                let m = merge_values(there, &value);
                Ok(set(target, key, m))
            } else {
                Err(ErrorKind::MergeTypeConflict(there.value_type()))
            }
        },
        None => {
            let m = merge_values(Value::object(), &value);
            Ok(set(target, key, m))
        },
    }
}

/// Makes one change to a record.
pub fn apply_change(target: Value, c: Change) -> (r: Result<Value, ErrorKind>)
    ensures
        makes(r, changed(target@, c@)),
        target@.wf() && brings_order(c@) ==> (r matches Ok(v) ==> v@.wf()),
{
    proof {
        if target@.wf() && brings_order(c@) {
            changes_keep_names_apart(target@, c@);
        }
    }
    match c {
        Change::Insert { key, value } => insert_new(target, key, value),
        Change::Upsert { key, value } => Ok(set(target, key, value)),
        Change::Update { key, value } => update(target, key, value),
        Change::Erase { key } => Ok(erase(target, key)),
        Change::Copy { from, to } => copy_field(target, from, to),
        Change::Move { from, to } => move_field(target, from, to),
        Change::Merge { key, value } => merge_at(target, key, value),
        Change::TupleMerge { value } => Ok(merge_values(target, &value)),
    }
}

} // verus!
