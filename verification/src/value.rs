//! The value model: a tree of nulls, booleans, integers, strings, arrays and
//! records. An event's payload is a pair of such trees, the value and its
//! metadata.

use vstd::prelude::*;

verus! {

/// The kind of a value, as error reports name it.
#[derive(Clone, Copy, Debug, PartialEq, Eq, Structural)]
pub enum ValueType {
    Null,
    Bool,
    I64,
    String,
    Array,
    Object,
}

/// A value as the engine holds it. A record keeps its fields in the order in
/// which they were first set.
#[derive(Debug, PartialEq, Eq)]
pub enum Value {
    Null,
    Bool(bool),
    I64(i64),
    String(String),
    Array(Vec<Value>),
    Object(Vec<(String, Value)>),
}

/// A named value of a record.
pub struct Field {
    pub name: Seq<char>,
    pub value: Data,
}

/// What a value is, apart from how it is stored.
pub enum Data {
    Null,
    Bool(bool),
    I64(int),
    String(Seq<char>),
    Array(Seq<Data>),
    Object(Seq<Field>),
}

impl Data {
    pub open spec fn value_type(self) -> ValueType {
        match self {
            Data::Null => ValueType::Null,
            Data::Bool(_) => ValueType::Bool,
            Data::I64(_) => ValueType::I64,
            Data::String(_) => ValueType::String,
            Data::Array(_) => ValueType::Array,
            Data::Object(_) => ValueType::Object,
        }
    }

    /// The place of the first field called `key` among `fields`, from `from` on.
    pub open spec fn position(fields: Seq<Field>, key: Seq<char>, from: int) -> Option<int>
        decreases fields.len() - from,
    {
        if from < 0 || from >= fields.len() {
            None
        } else if fields[from].name == key {
            Some(from)
        } else {
            Self::position(fields, key, from + 1)
        }
    }

    /// The field called `key` of a record; nothing for a missing field and for
    /// what is no record.
    pub open spec fn field(self, key: Seq<char>) -> Option<Data> {
        match self {
            Data::Object(fields) => match Self::position(fields, key, 0) {
                Some(i) => Some(fields[i].value),
                None => None,
            },
            _ => None,
        }
    }

    /// The element at `idx` of an array; nothing past its end and for what is
    /// no array.
    pub open spec fn element(self, idx: int) -> Option<Data> {
        match self {
            Data::Array(items) => if 0 <= idx < items.len() {
                Some(items[idx])
            } else {
                None
            },
            _ => None,
        }
    }

    /// The record with the field `key` set to `value`: replaced where it stands
    /// if the record has it, added at the end if not. What is no record is left
    /// as it is.
    pub open spec fn with_field(self, key: Seq<char>, value: Data) -> Data {
        match self {
            Data::Object(fields) => match Self::position(fields, key, 0) {
                Some(i) => Data::Object(fields.update(i, Field { name: key, value })),
                None => Data::Object(fields.push(Field { name: key, value })),
            },
            other => other,
        }
    }

    /// The record without its first field called `key`. A record that has no
    /// such field, and what is no record, is left as it is.
    pub open spec fn without_field(self, key: Seq<char>) -> Data {
        match self {
            Data::Object(fields) => match Self::position(fields, key, 0) {
                Some(i) => Data::Object(fields.remove(i)),
                None => self,
            },
            other => other,
        }
    }

    /// Whether two values are the same to a script. Arrays are the same if
    /// their elements are, place by place. Records are the same if they have
    /// the same names and the same value under each name, in whatever order
    /// the fields stand; of a name that stands twice the first field counts.
    pub open spec fn same(self, other: Data) -> bool
        decreases self,
    {
        match (self, other) {
            (Data::Null, Data::Null) => true,
            (Data::Bool(x), Data::Bool(y)) => x == y,
            (Data::I64(x), Data::I64(y)) => x == y,
            (Data::String(x), Data::String(y)) => x == y,
            (Data::Array(xs), Data::Array(ys)) => xs.len() == ys.len() && forall|i: int|
                0 <= i < xs.len() ==> (#[trigger] xs[i]).same(ys[i]),
            (Data::Object(fs), Data::Object(gs)) => {
                &&& forall|i: int|
                    0 <= i < fs.len() && Data::position(fs, (#[trigger] fs[i]).name, 0) == Some(i)
                        ==> (match Data::position(gs, fs[i].name, 0) {
                        Some(j) => 0 <= j < gs.len() && fs[i].value.same(gs[j].value),
                        None => false,
                    })
                &&& forall|j: int|
                    0 <= j < gs.len() ==> Data::position(fs, (#[trigger] gs[j]).name, 0).is_some()
            },
            _ => false,
        }
    }

    /// No record in the tree names a field twice.
    pub open spec fn wf(self) -> bool
        decreases self,
    {
        match self {
            Data::Array(items) => forall|i: int| 0 <= i < items.len() ==> (#[trigger] items[i]).wf(),
            Data::Object(fields) => {
                &&& forall|i: int| 0 <= i < fields.len() ==> (#[trigger] fields[i]).value.wf()
                &&& forall|i: int, j: int|
                    0 <= i < j < fields.len() ==> (#[trigger] fields[i]).name != (#[trigger] fields[j]).name
            },
            _ => true,
        }
    }

    pub open spec fn as_bool(self) -> Option<bool> {
        match self {
            Data::Bool(b) => Some(b),
            _ => None,
        }
    }

    pub open spec fn as_i64(self) -> Option<int> {
        match self {
            Data::I64(i) => Some(i),
            _ => None,
        }
    }

    pub open spec fn as_str(self) -> Option<Seq<char>> {
        match self {
            Data::String(s) => Some(s),
            _ => None,
        }
    }
}

/// Where `position` finds a name, the name stands there and nowhere before;
/// where it finds none, the name stands nowhere from `from` on.
pub proof fn lemma_position(fields: Seq<Field>, key: Seq<char>, from: int)
    requires
        0 <= from,
    ensures
        match Data::position(fields, key, from) {
            Some(i) => from <= i < fields.len() && fields[i].name == key && forall|j: int|
                from <= j < i ==> (#[trigger] fields[j]).name != key,
            None => forall|j: int| from <= j < fields.len() ==> (#[trigger] fields[j]).name != key,
        },
    decreases fields.len() - from,
{
    if from < fields.len() && fields[from].name != key {
        lemma_position(fields, key, from + 1);
    }
}

/// A record holds what was set: after a field is set, reading it gives the
/// value that was set, and reading any other field gives what it gave before.
pub proof fn field_reads_what_was_set(record: Data, key: Seq<char>, value: Data, other: Seq<char>)
    requires
        record is Object,
    ensures
        record.with_field(key, value).field(key) == Some(value),
        other != key ==> record.with_field(key, value).field(other) == record.field(other),
{
    let fields = record->Object_0;
    lemma_position(fields, key, 0);
    match Data::position(fields, key, 0) {
        Some(i) => {
            let after = fields.update(i, Field { name: key, value });
            lemma_position(after, key, 0);
            assert(after[i].name == key);
            let found = Data::position(after, key, 0);
            assert(found is Some);
            assert(found->0 == i) by {
                if found->0 < i {
                    assert(after[found->0].name == fields[found->0].name);
                }
            }
            if other != key {
                lemma_same_names(fields, after, other, 0);
            }
        },
        None => {
            let after = fields.push(Field { name: key, value });
            lemma_position(after, key, 0);
            let found = Data::position(after, key, 0);
            assert(after[fields.len() as int].name == key);
            assert(found is Some);
            assert(found->0 == fields.len()) by {
                if found->0 < fields.len() {
                    assert(after[found->0].name == fields[found->0].name);
                }
            }
            if other != key {
                lemma_position(fields, other, 0);
                lemma_position(after, other, 0);
                match Data::position(fields, other, 0) {
                    Some(j) => {
                        assert(after[j] == fields[j]);
                        let g = Data::position(after, other, 0);
                        assert(g is Some);
                        if g->0 < j {
                            assert(after[g->0] == fields[g->0]);
                        }
                        if g->0 > j {
                            assert(after[j].name != other);
                        }
                    },
                    None => {
                        let g = Data::position(after, other, 0);
                        if g is Some {
                            if g->0 < fields.len() {
                                assert(after[g->0] == fields[g->0]);
                            }
                        }
                    },
                }
            }
        },
    }
}

/// Two runs of fields with the same names in the same places, and the same
/// values wherever the name is `key`, find `key` at the same place with the
/// same value.
proof fn lemma_same_names(a: Seq<Field>, b: Seq<Field>, key: Seq<char>, from: int)
    requires
        0 <= from,
        a.len() == b.len(),
        forall|j: int| 0 <= j < a.len() ==> (#[trigger] a[j]).name == b[j].name,
        forall|j: int| 0 <= j < a.len() && a[j].name == key ==> (#[trigger] a[j]).value == b[j].value,
    ensures
        Data::position(a, key, from) == Data::position(b, key, from),
        Data::position(a, key, from) matches Some(i) ==> a[i].value == b[i].value,
    decreases a.len() - from,
{
    if from < a.len() {
        assert(a[from].name == b[from].name);
        if a[from].name != key {
            lemma_same_names(a, b, key, from + 1);
        }
    }
}

/// Names stay apart: setting a field of a record in which no name stands
/// twice gives a record in which no name stands twice.
pub proof fn with_field_keeps_names_apart(record: Data, key: Seq<char>, value: Data)
    requires
        record.wf(),
        value.wf(),
    ensures
        record.with_field(key, value).wf(),
{
    if record is Object {
        let fields = record->Object_0;
        lemma_position(fields, key, 0);
        match Data::position(fields, key, 0) {
            Some(i) => {
                let after = fields.update(i, Field { name: key, value });
                assert forall|j: int| 0 <= j < after.len() implies (#[trigger] after[j]).value.wf() by {
                    if j != i {
                        assert(after[j] == fields[j]);
                    }
                }
                assert forall|a: int, b: int| 0 <= a < b < after.len() implies (#[trigger] after[a]).name
                    != (#[trigger] after[b]).name by {
                    assert(after[a].name == fields[a].name);
                    assert(after[b].name == fields[b].name);
                }
            },
            None => {
                let after = fields.push(Field { name: key, value });
                assert forall|j: int| 0 <= j < after.len() implies (#[trigger] after[j]).value.wf() by {
                    if j < fields.len() {
                        assert(after[j] == fields[j]);
                    }
                }
                assert forall|a: int, b: int| 0 <= a < b < after.len() implies (#[trigger] after[a]).name
                    != (#[trigger] after[b]).name by {
                    assert(after[a] == fields[a]);
                    if b < fields.len() {
                        assert(after[b] == fields[b]);
                    }
                }
            },
        }
    }
}

/// Taking a field out of a record in which no name stands twice leaves such
/// a record, which no longer has the field.
pub proof fn without_field_keeps_names_apart(record: Data, key: Seq<char>)
    requires
        record.wf(),
    ensures
        record.without_field(key).wf(),
        record.without_field(key).field(key).is_none(),
{
    if record is Object {
        let fields = record->Object_0;
        lemma_position(fields, key, 0);
        match Data::position(fields, key, 0) {
            Some(i) => {
                let after = fields.remove(i);
                assert forall|j: int| 0 <= j < after.len() implies (#[trigger] after[j]).value.wf() by {
                    if j < i {
                        assert(after[j] == fields[j]);
                    } else {
                        assert(after[j] == fields[j + 1]);
                    }
                }
                assert forall|a: int, b: int| 0 <= a < b < after.len() implies (#[trigger] after[a]).name
                    != (#[trigger] after[b]).name by {
                    let x = if a < i { a } else { a + 1 };
                    let y = if b < i { b } else { b + 1 };
                    assert(after[a] == fields[x]);
                    assert(after[b] == fields[y]);
                }
                assert forall|j: int| 0 <= j < after.len() implies (#[trigger] after[j]).name != key by {
                    let x = if j < i { j } else { j + 1 };
                    assert(after[j] == fields[x]);
                    if x > i {
                        assert(fields[i].name != fields[x].name);
                    }
                }
                lemma_position(after, key, 0);
            },
            None => {},
        }
    }
}

/// What a run of values holds.
pub open spec fn items_view(items: Seq<Value>) -> Seq<Data> {
    Seq::new(items.len(), |i: int| items[i]@)
}

/// What a run of named values holds.
pub open spec fn fields_view(fields: Seq<(String, Value)>) -> Seq<Field> {
    Seq::new(fields.len(), |i: int| Field { name: fields[i].0@, value: fields[i].1@ })
}

impl View for Value {
    type V = Data;

    open spec fn view(&self) -> Data
        decreases self,
    {
        match self {
            Value::Null => Data::Null,
            Value::Bool(b) => Data::Bool(*b),
            Value::I64(i) => Data::I64(*i as int),
            Value::String(s) => Data::String(s@),
            Value::Array(items) => Data::Array(
                Seq::new(
                    items@.len(),
                    |i: int|
                        if 0 <= i < items@.len() {
                            items@[i]@
                        } else {
                            Data::Null
                        },
                ),
            ),
            Value::Object(fields) => Data::Object(
                Seq::new(
                    fields@.len(),
                    |i: int|
                        if 0 <= i < fields@.len() {
                            Field { name: fields@[i].0@, value: fields@[i].1@ }
                        } else {
                            Field { name: Seq::empty(), value: Data::Null }
                        },
                ),
            ),
        }
    }
}

/// The view of an array is the views of its items.
pub proof fn lemma_array_view(items: Vec<Value>)
    ensures
        Value::Array(items)@ == Data::Array(items_view(items@)),
{
    assert(Value::Array(items)@->Array_0 =~= items_view(items@));
}

/// The view of a record is the names and views of its fields.
pub proof fn lemma_object_view(fields: Vec<(String, Value)>)
    ensures
        Value::Object(fields)@ == Data::Object(fields_view(fields@)),
{
    assert(Value::Object(fields)@->Object_0 =~= fields_view(fields@));
}

/// Whether two string slices hold the same text, by `str`'s `==`.
#[verifier::external_body]
pub(crate) fn str_eq(a: &str, b: &str) -> (r: bool)
    ensures
        r == (a@ == b@),
{
    a == b
}

impl Clone for Value {
    fn clone(&self) -> (r: Self)
        ensures
            r@ == self@,
        decreases *self,
    {
        match self {
            Value::Null => Value::Null,
            Value::Bool(b) => Value::Bool(*b),
            Value::I64(i) => Value::I64(*i),
            Value::String(s) => Value::String(s.clone()),
            Value::Array(items) => {
                let mut out: Vec<Value> = Vec::new();
                let mut i: usize = 0;
                while i < items.len()
                    invariant
                        i <= items.len(),
                        *self == Value::Array(*items),
                        out@.len() == i,
                        forall|j: int| 0 <= j < i ==> out@[j]@ == items@[j]@,
                    decreases items.len() - i,
                {
                    assert(decreases_to!(*items => items@[i as int]));
                    assert(self->Array_0 == *items);
                    let c = items[i].clone();
                    out.push(c);
                    i += 1;
                }
                proof {
                    lemma_array_view(out);
                    lemma_array_view(*items);
                    assert(items_view(out@) =~= items_view(items@));
                }
                Value::Array(out)
            },
            Value::Object(fields) => {
                let mut out: Vec<(String, Value)> = Vec::new();
                let mut i: usize = 0;
                while i < fields.len()
                    invariant
                        i <= fields.len(),
                        *self == Value::Object(*fields),
                        out@.len() == i,
                        forall|j: int|
                            0 <= j < i ==> out@[j].0@ == fields@[j].0@ && out@[j].1@ == fields@[j].1@,
                    decreases fields.len() - i,
                {
                    assert(decreases_to!(*fields => fields@[i as int]));
                    assert(self->Object_0 == *fields);
                    let k = fields[i].0.clone();
                    let c = fields[i].1.clone();
                    out.push((k, c));
                    i += 1;
                }
                proof {
                    lemma_object_view(out);
                    lemma_object_view(*fields);
                    assert(fields_view(out@) =~= fields_view(fields@));
                }
                Value::Object(out)
            },
        }
    }
}

impl Value {
    /// The null value.
    pub fn null() -> (r: Value)
        ensures
            r@ == Data::Null,
    {
        Value::Null
    }

    /// The record without fields.
    pub fn object() -> (r: Value)
        ensures
            r@ == Data::Object(Seq::empty()),
            r@.wf(),
    {
        let fields: Vec<(String, Value)> = Vec::new();
        proof {
            lemma_object_view(fields);
            assert(fields_view(fields@) =~= Seq::empty());
        }
        Value::Object(fields)
    }

    /// The string value that holds `s`.
    pub fn string(s: &str) -> (r: Value)
        ensures
            r@ == Data::String(s@),
    {
        Value::String(s.to_string())
    }

    pub fn value_type(&self) -> (r: ValueType)
        ensures
            r == self@.value_type(),
    {
        match self {
            Value::Null => ValueType::Null,
            Value::Bool(_) => ValueType::Bool,
            Value::I64(_) => ValueType::I64,
            Value::String(_) => ValueType::String,
            Value::Array(_) => ValueType::Array,
            Value::Object(_) => ValueType::Object,
        }
    }

    pub fn as_bool(&self) -> (r: Option<bool>)
        ensures
            r == self@.as_bool(),
    {
        match self {
            Value::Bool(b) => Some(*b),
            _ => None,
        }
    }

    pub fn as_i64(&self) -> (r: Option<i64>)
        ensures
            match r {
                Some(i) => self@.as_i64() == Some(i as int),
                None => self@.as_i64().is_none(),
            },
    {
        match self {
            Value::I64(i) => Some(*i),
            _ => None,
        }
    }

    pub fn as_str(&self) -> (r: Option<&str>)
        ensures
            match r {
                Some(s) => self@.as_str() == Some(s@),
                None => self@.as_str().is_none(),
            },
    {
        match self {
            Value::String(s) => Some(s.as_str()),
            _ => None,
        }
    }

    /// The place of the first field called `key`, from `from` on.
    fn find(fields: &Vec<(String, Value)>, key: &str) -> (r: Option<usize>)
        ensures
            match r {
                Some(i) => Data::position(fields_view(fields@), key@, 0) == Some(i as int) && i < fields.len(),
                None => Data::position(fields_view(fields@), key@, 0).is_none(),
            },
    {
        let mut i: usize = 0;
        while i < fields.len()
            invariant
                i <= fields.len(),
                Data::position(fields_view(fields@), key@, 0) == Data::position(
                    fields_view(fields@),
                    key@,
                    i as int,
                ),
            decreases fields.len() - i,
        {
            if str_eq(fields[i].0.as_str(), key) {
                return Some(i);
            }
            i += 1;
        }
        None
    }

    /// The field called `key`, if this is a record that has it.
    pub fn get(&self, key: &str) -> (r: Option<&Value>)
        ensures
            match r {
                Some(v) => self@.field(key@) == Some(v@),
                None => self@.field(key@).is_none(),
            },
    {
        match self {
            Value::Object(fields) => {
                proof {
                    lemma_object_view(*fields);
                }
                match Self::find(fields, key) {
                    Some(i) => Some(&fields[i].1),
                    None => None,
                }
            },
            _ => None,
        }
    }

    /// The element at `idx`, if this is an array that has it.
    pub fn get_idx(&self, idx: usize) -> (r: Option<&Value>)
        ensures
            match r {
                Some(v) => self@.element(idx as int) == Some(v@),
                None => self@.element(idx as int).is_none(),
            },
    {
        match self {
            Value::Array(items) => {
                if idx < items.len() {
                    Some(&items[idx])
                } else {
                    None
                }
            },
            _ => None,
        }
    }

    /// Sets the field `key` of a record; leaves what is no record as it is. A
    /// record in which no name stands twice stays one.
    pub fn insert(&mut self, key: String, value: Value)
        ensures
            final(self)@ == old(self)@.with_field(key@, value@),
            old(self)@.wf() && value@.wf() ==> final(self)@.wf(),
    {
        proof {
            if self@.wf() && value@.wf() {
                with_field_keeps_names_apart(self@, key@, value@);
            }
        }
        let mut taken = Value::Null;
        std::mem::swap(self, &mut taken);
        match taken {
            Value::Object(fields) => {
                let mut fields = fields;
                let ghost before = fields;
                proof {
                    lemma_object_view(fields);
                }
                match Self::find(&fields, key.as_str()) {
                    Some(i) => {
                        fields.set(i, (key, value));
                        proof {
                            lemma_object_view(fields);
                            assert(fields_view(fields@) =~= fields_view(before@).update(
                                i as int,
                                Field { name: key@, value: value@ },
                            ));
                        }
                    },
                    None => {
                        fields.push((key, value));
                        proof {
                            lemma_object_view(fields);
                            assert(fields_view(fields@) =~= fields_view(before@).push(Field { name: key@, value: value@ }));
                        }
                    },
                }
                *self = Value::Object(fields);
            },
            other => {
                *self = other;
            },
        }
    }

    /// Takes the field `key` out of a record and returns its value; leaves a
    /// record without such a field, and what is no record, as it is. A
    /// record in which no name stands twice stays one.
    pub fn remove(&mut self, key: &str) -> (r: Option<Value>)
        ensures
            final(self)@ == old(self)@.without_field(key@),
            match r {
                Some(v) => old(self)@.field(key@) == Some(v@),
                None => old(self)@.field(key@).is_none(),
            },
            old(self)@.wf() ==> final(self)@.wf(),
    {
        proof {
            if self@.wf() {
                without_field_keeps_names_apart(self@, key@);
            }
        }
        let mut taken = Value::Null;
        std::mem::swap(self, &mut taken);
        match taken {
            Value::Object(fields) => {
                let mut fields = fields;
                let ghost before = fields;
                proof {
                    lemma_object_view(fields);
                }
                let r = match Self::find(&fields, key) {
                    Some(i) => {
                        let gone = fields.remove(i);
                        proof {
                            lemma_object_view(fields);
                            assert(fields_view(fields@) =~= fields_view(before@).remove(i as int));
                        }
                        Some(gone.1)
                    },
                    None => None,
                };
                *self = Value::Object(fields);
                r
            },
            other => {
                *self = other;
                None
            },
        }
    }

    /// Whether two values are the same to a script: records are compared by
    /// their names, not by the order of their fields.
    pub fn equals(&self, other: &Value) -> (r: bool)
        ensures
            r == self@.same(other@),
        decreases *self,
    {
        match (self, other) {
            (Value::Null, Value::Null) => true,
            (Value::Bool(a), Value::Bool(b)) => *a == *b,
            (Value::I64(a), Value::I64(b)) => *a == *b,
            (Value::String(a), Value::String(b)) => *a == *b,
            (Value::Array(xs), Value::Array(ys)) => {
                proof {
                    lemma_array_view(*xs);
                    lemma_array_view(*ys);
                }
                if xs.len() != ys.len() {
                    return false;
                }
                let mut i: usize = 0;
                while i < xs.len()
                    invariant
                        i <= xs.len(),
                        xs.len() == ys.len(),
                        *self == Value::Array(*xs),
                        self@ == Data::Array(items_view(xs@)),
                        other@ == Data::Array(items_view(ys@)),
                        forall|j: int| 0 <= j < i ==> xs@[j]@.same(ys@[j]@),
                    decreases xs.len() - i,
                {
                    assert(decreases_to!(*xs => xs@[i as int]));
                    assert(self->Array_0 == *xs);
                    if !xs[i].equals(&ys[i]) {
                        assert(!items_view(xs@)[i as int].same(items_view(ys@)[i as int]));
                        return false;
                    }
                    i += 1;
                }
                assert forall|j: int| 0 <= j < xs.len() implies (#[trigger] items_view(xs@)[j]).same(
                    items_view(ys@)[j],
                ) by {
                    assert(xs@[j]@.same(ys@[j]@));
                }
                true
            },
            (Value::Object(xs), Value::Object(ys)) => {
                proof {
                    lemma_object_view(*xs);
                    lemma_object_view(*ys);
                }
                let ghost fs = fields_view(xs@);
                let ghost gs = fields_view(ys@);
                let mut i: usize = 0;
                while i < xs.len()
                    invariant
                        i <= xs.len(),
                        *self == Value::Object(*xs),
                        fs == fields_view(xs@),
                        gs == fields_view(ys@),
                        self@ == Data::Object(fs),
                        other@ == Data::Object(gs),
                        forall|k: int|
                            0 <= k < i && Data::position(fs, (#[trigger] fs[k]).name, 0) == Some(k)
                                ==> (match Data::position(gs, fs[k].name, 0) {
                                Some(j) => 0 <= j < gs.len() && fs[k].value.same(gs[j].value),
                                None => false,
                            }),
                    decreases xs.len() - i,
                {
                    assert(decreases_to!(*xs => xs@[i as int]));
                    assert(self->Object_0 == *xs);
                    assert(fs[i as int].name == xs@[i as int].0@);
                    let first = match Self::find(xs, xs[i].0.as_str()) {
                        Some(p) => p == i,
                        None => false,
                    };
                    if first {
                        match Self::find(ys, xs[i].0.as_str()) {
                            None => {
                                return false;
                            },
                            Some(j) => {
                                assert(gs[j as int].value == ys@[j as int].1@);
                                assert(fs[i as int].value == xs@[i as int].1@);
                                if !xs[i].1.equals(&ys[j].1) {
                                    return false;
                                }
                            },
                        }
                    }
                    i += 1;
                }
                let mut j: usize = 0;
                while j < ys.len()
                    invariant
                        j <= ys.len(),
                        fs == fields_view(xs@),
                        gs == fields_view(ys@),
                        self@ == Data::Object(fs),
                        other@ == Data::Object(gs),
                        forall|k: int|
                            0 <= k < fs.len() && Data::position(fs, (#[trigger] fs[k]).name, 0) == Some(
                                k,
                            ) ==> (match Data::position(gs, fs[k].name, 0) {
                                Some(j) => 0 <= j < gs.len() && fs[k].value.same(gs[j].value),
                                None => false,
                            }),
                        forall|k: int|
                            0 <= k < j ==> Data::position(fs, (#[trigger] gs[k]).name, 0).is_some(),
                    decreases ys.len() - j,
                {
                    assert(gs[j as int].name == ys@[j as int].0@);
                    if Self::find(xs, ys[j].0.as_str()).is_none() {
                        return false;
                    }
                    j += 1;
                }
                true
            },
            _ => false,
        }
    }
}

/// What is the same as a second value, which is the same as a third, is
/// the same as the third.
pub proof fn same_carries_over(a: Data, b: Data, c: Data)
    requires
        a.same(b),
        b.same(c),
    ensures
        a.same(c),
    decreases a,
{
    match (a, b, c) {
        (Data::Array(xs), Data::Array(ys), Data::Array(zs)) => {
            assert forall|i: int| 0 <= i < xs.len() implies (#[trigger] xs[i]).same(zs[i]) by {
                assert(xs[i].same(ys[i]));
                assert(ys[i].same(zs[i]));
                same_carries_over(xs[i], ys[i], zs[i]);
            }
        },
        (Data::Object(fs), Data::Object(gs), Data::Object(hs)) => {
            assert forall|i: int|
                0 <= i < fs.len() && Data::position(fs, (#[trigger] fs[i]).name, 0) == Some(
                    i,
                ) implies (match Data::position(hs, fs[i].name, 0) {
                Some(k) => 0 <= k < hs.len() && fs[i].value.same(hs[k].value),
                None => false,
            }) by {
                let name = fs[i].name;
                lemma_position(gs, name, 0);
                let j = Data::position(gs, name, 0).unwrap();
                assert(fs[i].value.same(gs[j].value));
                assert(gs[j].name == name);
                assert(Data::position(gs, gs[j].name, 0) == Some(j));
                let k = Data::position(hs, name, 0).unwrap();
                assert(gs[j].value.same(hs[k].value));
                same_carries_over(fs[i].value, gs[j].value, hs[k].value);
            }
            assert forall|k: int| 0 <= k < hs.len() implies Data::position(
                fs,
                (#[trigger] hs[k]).name,
                0,
            ).is_some() by {
                let name = hs[k].name;
                assert(Data::position(gs, name, 0).is_some());
                lemma_position(gs, name, 0);
                let j = Data::position(gs, name, 0).unwrap();
                assert(gs[j].name == name);
                assert(Data::position(fs, gs[j].name, 0).is_some());
            }
        },
        _ => {},
    }
}

/// Being the same goes both ways.
pub proof fn same_goes_both_ways(a: Data, b: Data)
    requires
        a.same(b),
    ensures
        b.same(a),
    decreases a,
{
    match (a, b) {
        (Data::Array(xs), Data::Array(ys)) => {
            assert forall|i: int| 0 <= i < ys.len() implies (#[trigger] ys[i]).same(xs[i]) by {
                assert(xs[i].same(ys[i]));
                same_goes_both_ways(xs[i], ys[i]);
            }
        },
        (Data::Object(fs), Data::Object(gs)) => {
            assert forall|j: int|
                0 <= j < gs.len() && Data::position(gs, (#[trigger] gs[j]).name, 0) == Some(
                    j,
                ) implies (match Data::position(fs, gs[j].name, 0) {
                Some(i) => 0 <= i < fs.len() && gs[j].value.same(fs[i].value),
                None => false,
            }) by {
                let name = gs[j].name;
                assert(Data::position(fs, name, 0).is_some());
                lemma_position(fs, name, 0);
                let i = Data::position(fs, name, 0).unwrap();
                assert(fs[i].name == name);
                assert(Data::position(fs, fs[i].name, 0) == Some(i));
                assert(fs[i].value.same(gs[j].value));
                same_goes_both_ways(fs[i].value, gs[j].value);
            }
            assert forall|i: int| 0 <= i < fs.len() implies Data::position(
                gs,
                (#[trigger] fs[i]).name,
                0,
            ).is_some() by {
                let name = fs[i].name;
                lemma_position(fs, name, 0);
                let first = Data::position(fs, name, 0).unwrap();
                assert(fs[first].name == name);
                assert(Data::position(fs, fs[first].name, 0) == Some(first));
            }
        },
        _ => {},
    }
}

/// Every value is the same as itself.
pub proof fn same_is_reflexive(v: Data)
    ensures
        v.same(v),
    decreases v,
{
    match v {
        Data::Array(xs) => {
            assert forall|i: int| 0 <= i < xs.len() implies (#[trigger] xs[i]).same(xs[i]) by {
                same_is_reflexive(xs[i]);
            }
        },
        Data::Object(fs) => {
            assert forall|i: int|
                0 <= i < fs.len() && Data::position(fs, (#[trigger] fs[i]).name, 0) == Some(
                    i,
                ) implies (match Data::position(fs, fs[i].name, 0) {
                Some(j) => 0 <= j < fs.len() && fs[i].value.same(fs[j].value),
                None => false,
            }) by {
                same_is_reflexive(fs[i].value);
            }
            assert forall|j: int| 0 <= j < fs.len() implies Data::position(
                fs,
                (#[trigger] fs[j]).name,
                0,
            ).is_some() by {
                lemma_position(fs, fs[j].name, 0);
            }
        },
        _ => {},
    }
}

/// The order of the fields does not matter: a record with two fields of
/// different names is the same as the record with the two the other way
/// round.
pub proof fn same_whatever_the_order(a: Field, b: Field)
    requires
        a.name != b.name,
    ensures
        Data::Object(seq![a, b]).same(Data::Object(seq![b, a])),
{
    let fs = seq![a, b];
    let gs = seq![b, a];
    reveal_with_fuel(Data::position, 3);
    same_is_reflexive(a.value);
    same_is_reflexive(b.value);
    assert(Data::position(fs, a.name, 0) == Some(0int));
    assert(Data::position(fs, b.name, 0) == Some(1int));
    assert(Data::position(gs, a.name, 0) == Some(1int));
    assert(Data::position(gs, b.name, 0) == Some(0int));
    assert forall|i: int|
        0 <= i < fs.len() && Data::position(fs, (#[trigger] fs[i]).name, 0) == Some(i) implies (match Data::position(
        gs,
        fs[i].name,
        0,
    ) {
        Some(j) => 0 <= j < gs.len() && fs[i].value.same(gs[j].value),
        None => false,
    }) by {
        if i == 0 {
            assert(fs[0] == a && gs[1] == a);
        } else {
            assert(fs[1] == b && gs[0] == b);
        }
    }
    assert forall|j: int| 0 <= j < gs.len() implies Data::position(
        fs,
        (#[trigger] gs[j]).name,
        0,
    ).is_some() by {
        if j == 0 {
            assert(gs[0] == b);
        } else {
            assert(gs[1] == a);
        }
    }
}

} // verus!
