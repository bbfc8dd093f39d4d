use vstd::prelude::*;
use crate::decimal::DecimalValue;
use crate::field::{Field, FieldView};
use crate::field_type::Type;
use crate::float::{float_close, float_close_exec, FloatValue};
use crate::text::str_eq;
use crate::time::{DateTimeValue, DurationValue};
use crate::value::{
    decode_spec, decode_value, encode_value, fits, round_trips, slot_text, value_text, value_wf, Value, ValueView,
};

verus! {

/// Why an access through a descriptor did not happen.
#[derive(Debug, PartialEq)]
pub enum ReflectError {
    /// The field's kind has no codec (an enum or another custom type).
    Unsupported(String),
    /// The text is not a value of the field's kind.
    Decode { tp: Type, input: String },
}

/// A record instance: its type's name, the ordered schema of its fields,
/// and one slot per field; an empty slot is an absent optional value.
pub struct Record {
    name: String,
    fields: Vec<Field>,
    values: Vec<Option<Value>>,
}

pub open spec fn slot_view(o: Option<Value>) -> Option<ValueView> {
    match o {
        Some(v) => Some(v@),
        None => None,
    }
}

/// A slot that suits a field: nothing for a custom field; for an optional
/// one nothing or a value of the wrapped kind; else a value of the kind.
pub open spec fn slot_ok(f: FieldView, o: Option<ValueView>) -> bool {
    match f.tp {
        Type::Enum => o is None,
        Type::Optional(k) => match o {
            Some(v) => fits(k.base(), f.declared_type, v) && value_wf(v),
            None => true,
        },
        _ => match o {
            Some(v) => fits(f.tp, f.declared_type, v) && value_wf(v),
            None => false,
        },
    }
}

/// Names are unique within a schema.
pub open spec fn unique_names(fs: Seq<FieldView>) -> bool {
    forall|i: int, j: int| 0 <= i < fs.len() && 0 <= j < fs.len() && i != j ==> fs[i].name != fs[j].name
}

/// The schema is well formed for a record type named `name`.
pub open spec fn schema_ok(name: Seq<char>, fs: Seq<FieldView>) -> bool {
    &&& unique_names(fs)
    &&& forall|i: int| 0 <= i < fs.len() ==> (#[trigger] fs[i]).wf() && fs[i].parent_name == name
}

/// The index of the field named `n`.
pub open spec fn index_of_name(fs: Seq<FieldView>, n: Seq<char>) -> int {
    choose|i: int| 0 <= i < fs.len() && fs[i].name == n
}

pub open spec fn has_name(fs: Seq<FieldView>, n: Seq<char>) -> bool {
    exists|i: int| 0 <= i < fs.len() && fs[i].name == n
}

impl Record {
    pub closed spec fn name_view(&self) -> Seq<char> {
        self.name@
    }

    /// The schema.
    pub closed spec fn schema(&self) -> Seq<FieldView> {
        self.fields@.map_values(|f: Field| f@)
    }

    /// The slots, in schema order.
    pub closed spec fn slots(&self) -> Seq<Option<ValueView>> {
        self.values@.map_values(|o: Option<Value>| slot_view(o))
    }

    pub open spec fn wf(&self) -> bool {
        &&& schema_ok(self.name_view(), self.schema())
        &&& self.slots().len() == self.schema().len()
        &&& forall|i: int| 0 <= i < self.schema().len() ==> slot_ok(#[trigger] self.schema()[i], self.slots()[i])
    }

    /// `field` is a descriptor of this record's schema.
    pub open spec fn has_field(&self, field: FieldView) -> bool {
        exists|i: int| 0 <= i < self.schema().len() && self.schema()[i] == field
    }

    /// The slot that the field named `n` addresses.
    pub open spec fn slot_of(&self, n: Seq<char>) -> Option<ValueView> {
        self.slots()[index_of_name(self.schema(), n)]
    }

    /// A record of the given schema, each slot holding its kind's default
    /// (zero, empty text, `false`, the Unix epoch) and optional and custom
    /// slots empty. `None` where the schema is not well formed.
    pub fn new(name: &str, fields: Vec<Field>) -> (r: Option<Record>)
        ensures
            r matches Some(rec) ==> rec.wf() && rec.name_view() == name@ && rec.schema() == fields@.map_values(
                |f: Field| f@,
            ) && (forall|i: int| 0 <= i < rec.schema().len() ==> (#[trigger] rec.slots()[i]) == default_slot(rec.schema()[i].tp)),
            r is None ==> !schema_ok(name@, fields@.map_values(|f: Field| f@)),
    {
        let n = fields.len();
        let ghost fs = fields@.map_values(|f: Field| f@);
        let mut values: Vec<Option<Value>> = Vec::new();
        let mut i: usize = 0;
        while i < n
            invariant
                n == fields@.len(),
                fs == fields@.map_values(|f: Field| f@),
                i <= n,
                values@.len() == i,
                forall|k: int| 0 <= k < i ==> (#[trigger] fs[k]).wf() && fs[k].parent_name == name@,
                forall|k: int, j: int| 0 <= k < i && 0 <= j < i && k != j ==> fs[k].name != fs[j].name,
                forall|k: int| 0 <= k < i ==> slot_view(#[trigger] values@[k]) == default_slot(fs[k].tp),
            decreases n - i,
        {
            let f = &fields[i];
            if f.optional != f.tp.is_optional() || !str_eq(f.parent_name.as_str(), name) {
                return None;
            }
            let mut j: usize = 0;
            while j < i
                invariant
                    n == fields@.len(),
                    fs == fields@.map_values(|f: Field| f@),
                    i < n,
                    j <= i,
                    forall|k: int| 0 <= k < j ==> fs[k].name != fs[i as int].name,
                decreases i - j,
            {
                if str_eq(fields[j].name.as_str(), fields[i].name.as_str()) {
                    proof {
                        assert(fs[j as int] == fields@[j as int]@);
                        assert(fs[i as int] == fields@[i as int]@);
                        assert(fs[j as int].name == fs[i as int].name);
                    }
                    return None;
                }
                j += 1;
            }
            values.push(default_value(f.tp));
            i += 1;
        }
        let rec = Record { name: String::from_str(name), fields, values };
        proof {
            assert forall|k: int| 0 <= k < rec.schema().len() implies slot_ok(#[trigger] rec.schema()[k], rec.slots()[k]) by {
                lemma_default_ok(rec.schema()[k]);
            }
        }
        Some(rec)
    }

    /// The record type's name.
    pub fn record_name(&self) -> (r: &str)
        ensures
            r@ == self.name_view(),
    {
        self.name.as_str()
    }

    /// The schema, in declaration order.
    pub fn fields(&self) -> (r: &Vec<Field>)
        ensures
            r@.map_values(|f: Field| f@) == self.schema(),
    {
        &self.fields
    }

    /// Position of the field named `n`.
    fn index_of(&self, n: &str) -> (r: Option<usize>)
        requires
            self.wf(),
        ensures
            r matches Some(i) ==> i < self.schema().len() && self.schema()[i as int].name == n@ && i
                == index_of_name(self.schema(), n@),
            r is None ==> !has_name(self.schema(), n@),
    {
        let mut i: usize = 0;
        while i < self.fields.len()
            invariant
                self.wf(),
                i <= self.fields@.len(),
                forall|k: int| 0 <= k < i ==> self.schema()[k].name != n@,
            decreases self.fields@.len() - i,
        {
            if str_eq(self.fields[i].name.as_str(), n) {
                proof {
                    assert(self.schema()[i as int].name == n@);
                    let c = index_of_name(self.schema(), n@);
                    assert(0 <= c < self.schema().len() && self.schema()[c].name == n@);
                }
                return Some(i);
            }
            i += 1;
        }
        None
    }

    /// The descriptor named `n`; the name must be one of the schema's.
    pub fn field_by_name(&self, n: &str) -> (r: Field)
        requires
            self.wf(),
            has_name(self.schema(), n@),
        ensures
            r@ == self.schema()[index_of_name(self.schema(), n@)],
            r@.name == n@,
    {
        match self.index_of(n) {
            Some(i) => self.fields[i].copy(),
            None => {
                proof {
                    assert(false);
                }
                Field::new(n, Type::Enum, "", "")
            },
        }
    }

    /// The canonical text of the field's value: `NULL` for an absent
    /// optional value; an error for a custom field.
    pub fn get_value(&self, field: &Field) -> (r: Result<String, ReflectError>)
        requires
            self.wf(),
            self.has_field(field@),
        ensures
            field.tp is Enum ==> (r matches Err(ReflectError::Unsupported(n)) && n@ == field@.name),
            !(field.tp is Enum) ==> (r matches Ok(s) && s@ == slot_text(self.slot_of(field@.name))),
    {
        if field.tp.is_enum() {
            return Err(ReflectError::Unsupported(field.name.clone()));
        }
        let i = match self.index_of(field.name.as_str()) {
            Some(i) => i,
            None => {
                proof {
                    let k = choose|k: int| 0 <= k < self.schema().len() && self.schema()[k] == field@;
                    assert(self.schema()[k].name == field@.name);
                }
                return Err(ReflectError::Unsupported(field.name.clone()));
            },
        };
        proof {
            assert(slot_ok(self.schema()[i as int], self.slots()[i as int]));
            assert(self.slots()[i as int] == slot_view(self.values@[i as int]));
        }
        match &self.values[i] {
            Some(v) => Ok(encode_value(v)),
            None => {
                proof {
                    reveal_strlit("NULL");
                    assert("NULL"@ =~= seq!['N', 'U', 'L', 'L']);
                }
                Ok(String::from_str("NULL"))
            },
        }
    }

    /// The canonical text of the value of the field named `n`.
    pub fn value_by_name(&self, n: &str) -> (r: Result<String, ReflectError>)
        requires
            self.wf(),
            has_name(self.schema(), n@),
        ensures
            self.schema()[index_of_name(self.schema(), n@)].tp is Enum ==> (r matches Err(
                ReflectError::Unsupported(m),
            ) && m@ == n@),
            !(self.schema()[index_of_name(self.schema(), n@)].tp is Enum) ==> (r matches Ok(s) && s@
                == slot_text(self.slot_of(n@))),
    {
        let f = self.field_by_name(n);
        self.get_value(&f)
    }

    /// Writes the field's value from its canonical text, or empties an
    /// optional slot for `None`. A text that is not a value of the field's
    /// kind is an error and leaves the record as it was, as does a custom
    /// field.
    /// Giving no value to a field that is neither optional nor custom is a
    /// contract violation, left out by `requires`: no default is put in
    /// its place.
    pub fn set_value(&mut self, field: &Field, value: Option<&str>) -> (r: Result<(), ReflectError>)
        requires
            old(self).wf(),
            old(self).has_field(field@),
            value is None ==> (field.tp is Optional || field.tp is Enum),
        ensures
            final(self).wf(),
            final(self).name_view() == old(self).name_view(),
            final(self).schema() == old(self).schema(),
            field.tp is Enum ==> (r matches Err(ReflectError::Unsupported(n)) && n@ == field@.name)
                && final(self).slots() == old(self).slots(),
            !(field.tp is Enum) ==> set_effect(
                old(self).slots(),
                index_of_name(old(self).schema(), field@.name),
                field@,
                text_view(value),
                r,
                final(self).slots(),
            ),
            forall|v: ValueView|
                !(field.tp is Enum) && fits(field.tp.plain(), field@.declared_type, v) && round_trips(v) && (
                value matches Some(s) && s@ == #[trigger] value_text(v)) ==> (r is Ok && final(self).slots()
                    == old(self).slots().update(index_of_name(old(self).schema(), field@.name), Some(v))),
    {
        if field.tp.is_enum() {
            return Err(ReflectError::Unsupported(field.name.clone()));
        }
        let i = match self.index_of(field.name.as_str()) {
            Some(i) => i,
            None => {
                proof {
                    let k = choose|k: int| 0 <= k < self.schema().len() && self.schema()[k] == field@;
                    assert(self.schema()[k].name == field@.name);
                }
                return Err(ReflectError::Unsupported(field.name.clone()));
            },
        };
        let ghost fi = self.schema()[i as int];
        proof {
            let k = choose|k: int| 0 <= k < self.schema().len() && self.schema()[k] == field@;
            assert(self.schema()[k].name == self.schema()[i as int].name);
            assert(k == i);
        }
        match value {
            None => {
                self.values.set(i, None);
                proof {
                    assert(self.slots() =~= old(self).slots().update(i as int, None));
                    assert(self.schema() =~= old(self).schema());
                }
                Ok(())
            },
            Some(s) => {
                let plain = match field.tp.get_optional() {
                    Some(o) => o.to_non_optional(),
                    None => field.tp,
                };
                proof {
                    assert(plain == field.tp.plain());
                }
                let decoded = decode_value(plain, field.declared_type.as_str(), s);
                match decoded {
                    Some(v) => {
                        self.values.set(i, Some(v));
                        proof {
                            assert(self.slots() =~= old(self).slots().update(i as int, Some(v@)));
                            assert(self.schema() =~= old(self).schema());
                            assert(slot_ok(self.schema()[i as int], self.slots()[i as int]));
                            assert forall|w: ValueView|
                                fits(field.tp.plain(), field@.declared_type, w) && round_trips(w) && s@
                                    == #[trigger] value_text(w) implies w == v@ by {}
                        }
                        Ok(())
                    },
                    None => Err(ReflectError::Decode { tp: field.tp, input: String::from_str(s) }),
                }
            },
        }
    }
}

pub open spec fn text_view(value: Option<&str>) -> Option<Seq<char>> {
    match value {
        Some(s) => Some(s@),
        None => None,
    }
}

/// What writing `value` into slot `i` of field `f` does: `None` empties
/// the slot; a text that decodes stores its value; any other text is a
/// decode error naming the kind and the text, and changes nothing.
pub open spec fn set_effect(
    before: Seq<Option<ValueView>>,
    i: int,
    f: FieldView,
    value: Option<Seq<char>>,
    r: Result<(), ReflectError>,
    after: Seq<Option<ValueView>>,
) -> bool {
    match value {
        None => r is Ok && after == before.update(i, None),
        Some(s) => match decode_spec(f.tp.plain(), f.declared_type, s) {
            Some(v) => r is Ok && after == before.update(i, Some(v)),
            None => (r matches Err(ReflectError::Decode { tp, input }) && tp == f.tp && input@ == s)
                && after == before,
        },
    }
}

/// One field on which two records differ, with both sides' texts.
#[derive(Debug, PartialEq)]
pub struct Mismatch {
    pub index: usize,
    pub name: String,
    pub left: String,
    pub right: String,
}

/// Two slots hold the same value; floats may differ by the tolerance.
pub open spec fn slots_match(a: Option<ValueView>, b: Option<ValueView>) -> bool {
    match (a, b) {
        (Some(ValueView::Float(x)), Some(ValueView::Float(y))) => float_close(x, y),
        _ => a == b,
    }
}

/// Positions below `n` at which the slots do not match, in order.
pub open spec fn diff_indices(a: Seq<Option<ValueView>>, b: Seq<Option<ValueView>>, n: nat) -> Seq<int>
    decreases n,
{
    if n == 0 {
        seq![]
    } else {
        let p = diff_indices(a, b, (n - 1) as nat);
        if slots_match(a[n - 1], b[n - 1]) {
            p
        } else {
            p.push(n - 1)
        }
    }
}

/// `a` and `b` hold the same value.
pub fn values_equal(a: &Value, b: &Value) -> (r: bool)
    ensures
        r == (a@ == b@),
{
    match (a, b) {
        (Value::Float(x), Value::Float(y)) => *x == *y,
        (Value::Integer(x), Value::Integer(y)) => *x == *y,
        (Value::Text(x), Value::Text(y)) => x.eq(y),
        (Value::Date(x), Value::Date(y)) => *x == *y,
        (Value::DateTime(x), Value::DateTime(y)) => *x == *y,
        (Value::Decimal(x), Value::Decimal(y)) => *x == *y,
        (Value::Bool(x), Value::Bool(y)) => *x == *y,
        (Value::Duration(x), Value::Duration(y)) => *x == *y,
        _ => false,
    }
}

fn slots_match_exec(a: &Option<Value>, b: &Option<Value>) -> (r: bool)
    requires
        a matches Some(v) ==> value_wf(v@),
        b matches Some(v) ==> value_wf(v@),
    ensures
        r == slots_match(slot_view(*a), slot_view(*b)),
{
    match (a, b) {
        (Some(Value::Float(x)), Some(Value::Float(y))) => float_close_exec(*x, *y),
        (Some(x), Some(y)) => values_equal(x, y),
        (None, None) => true,
        _ => false,
    }
}

impl Record {
    /// Every slot of `self` matches the same slot of `other`: exact
    /// equality, but for floats, which may differ by `10^-3`.
    pub fn reflected_eq(&self, other: &Record) -> (r: bool)
        requires
            self.wf(),
            other.wf(),
            self.schema() == other.schema(),
        ensures
            r == (forall|i: int| 0 <= i < self.slots().len() ==> slots_match(#[trigger] self.slots()[i], other.slots()[i])),
    {
        let d = self.differences(other);
        proof {
            lemma_diff_empty(self.slots(), other.slots(), self.slots().len());
        }
        d.len() == 0
    }

    /// The fields on which `self` and `other` differ, in schema order, with
    /// each side's canonical text.
    pub fn differences(&self, other: &Record) -> (r: Vec<Mismatch>)
        requires
            self.wf(),
            other.wf(),
            self.schema() == other.schema(),
        ensures
            r@.len() == diff_indices(self.slots(), other.slots(), self.slots().len()).len(),
            forall|k: int|
                0 <= k < r@.len() ==> {
                    let i = diff_indices(self.slots(), other.slots(), self.slots().len())[k];
                    &&& (#[trigger] r@[k]).index == i
                    &&& r@[k].name@ == self.schema()[i].name
                    &&& r@[k].left@ == slot_text(self.slots()[i])
                    &&& r@[k].right@ == slot_text(other.slots()[i])
                },
    {
        let n = self.values.len();
        let mut out: Vec<Mismatch> = Vec::new();
        let mut i: usize = 0;
        while i < n
            invariant
                self.wf(),
                other.wf(),
                self.schema() == other.schema(),
                n == self.slots().len(),
                n == other.slots().len(),
                i <= n,
                out@.len() == diff_indices(self.slots(), other.slots(), i as nat).len(),
                forall|k: int|
                    0 <= k < out@.len() ==> {
                        let j = diff_indices(self.slots(), other.slots(), i as nat)[k];
                        &&& (#[trigger] out@[k]).index == j
                        &&& out@[k].name@ == self.schema()[j].name
                        &&& out@[k].left@ == slot_text(self.slots()[j])
                        &&& out@[k].right@ == slot_text(other.slots()[j])
                    },
            decreases n - i,
        {
            proof {
                assert(slot_ok(self.schema()[i as int], self.slots()[i as int]));
                assert(slot_ok(other.schema()[i as int], other.slots()[i as int]));
                assert(self.slots()[i as int] == slot_view(self.values@[i as int]));
                assert(other.slots()[i as int] == slot_view(other.values@[i as int]));
            }
            if !slots_match_exec(&self.values[i], &other.values[i]) {
                let f = &self.fields[i];
                let left = self.slot_text_at(i);
                let right = other.slot_text_at(i);
                out.push(Mismatch { index: i, name: f.name.clone(), left, right });
            }
            i += 1;
        }
        out
    }

    /// The canonical text of slot `i`.
    fn slot_text_at(&self, i: usize) -> (r: String)
        requires
            self.wf(),
            i < self.slots().len(),
        ensures
            r@ == slot_text(self.slots()[i as int]),
    {
        proof {
            assert(slot_ok(self.schema()[i as int], self.slots()[i as int]));
            assert(self.slots()[i as int] == slot_view(self.values@[i as int]));
        }
        match &self.values[i] {
            Some(v) => encode_value(v),
            None => {
                proof {
                    reveal_strlit("NULL");
                    assert("NULL"@ =~= seq!['N', 'U', 'L', 'L']);
                }
                String::from_str("NULL")
            },
        }
    }
}

proof fn lemma_diff_empty(a: Seq<Option<ValueView>>, b: Seq<Option<ValueView>>, n: nat)
    ensures
        (diff_indices(a, b, n).len() == 0) == (forall|i: int| 0 <= i < n ==> slots_match(#[trigger] a[i], b[i])),
    decreases n,
{
    if n > 0 {
        lemma_diff_empty(a, b, (n - 1) as nat);
        if diff_indices(a, b, (n - 1) as nat).len() != 0 {
            let i = choose|i: int| 0 <= i < n - 1 && !slots_match(#[trigger] a[i], b[i]);
            assert(!slots_match(a[i], b[i]));
        }
    }
}

/// A field whose raw value a database binding takes: neither the primary
/// key, a custom field, nor one declared `usize`.
pub open spec fn bindable(f: FieldView) -> bool {
    !f.is_id() && !(f.tp is Enum) && f.declared_type != seq!['u', 's', 'i', 'z', 'e']
}

/// Positions below `n` of bindable fields, in order.
pub open spec fn bind_indices(fs: Seq<FieldView>, n: nat) -> Seq<int>
    decreases n,
{
    if n == 0 {
        seq![]
    } else {
        let p = bind_indices(fs, (n - 1) as nat);
        if bindable(fs[n - 1]) {
            p.push(n - 1)
        } else {
            p
        }
    }
}

impl Record {
    /// Positions of the fields that a database binding takes, in
    /// declaration order.
    pub fn bind_order(&self) -> (r: Vec<usize>)
        requires
            self.wf(),
        ensures
            r@.len() == bind_indices(self.schema(), self.schema().len()).len(),
            forall|k: int| 0 <= k < r@.len() ==> r@[k] == bind_indices(self.schema(), self.schema().len())[k],
    {
        let n = self.fields.len();
        let mut out: Vec<usize> = Vec::new();
        let mut i: usize = 0;
        proof {
            reveal_strlit("usize");
            assert("usize"@ =~= seq!['u', 's', 'i', 'z', 'e']);
        }
        while i < n
            invariant
                n == self.schema().len(),
                i <= n,
                "usize"@ == seq!['u', 's', 'i', 'z', 'e'],
                out@.len() == bind_indices(self.schema(), i as nat).len(),
                forall|k: int| 0 <= k < out@.len() ==> out@[k] == bind_indices(self.schema(), i as nat)[k],
            decreases n - i,
        {
            let f = &self.fields[i];
            proof {
                assert(self.schema()[i as int] == f@);
            }
            if !f.is_id() && !f.is_enum() && !str_eq(f.declared_type.as_str(), "usize") {
                out.push(i);
            }
            i += 1;
        }
        out
    }
}

/// The slot a new record holds for a field of kind `tp`.
pub open spec fn default_slot(tp: Type) -> Option<ValueView> {
    match tp {
        Type::Float => Some(ValueView::Float(FloatValue { mantissa: 0, scale: 0 })),
        Type::Integer => Some(ValueView::Integer(0)),
        Type::Text => Some(ValueView::Text(seq![])),
        Type::Date => Some(ValueView::Date(epoch())),
        Type::DateTime => Some(ValueView::DateTime(epoch())),
        Type::Decimal => Some(ValueView::Decimal(DecimalValue { mantissa: 0, scale: 0 })),
        Type::Bool => Some(ValueView::Bool(false)),
        Type::Duration => Some(ValueView::Duration(DurationValue { secs: 0, nanos: 0 })),
        _ => None,
    }
}

pub open spec fn epoch() -> DateTimeValue {
    DateTimeValue { year: 1970, month: 1, day: 1, hour: 0, minute: 0, second: 0, nanosecond: 0 }
}

proof fn lemma_default_ok(f: FieldView)
    ensures
        slot_ok(f, default_slot(f.tp)),
{
    if f.tp is Integer {
        crate::value::lemma_int_range_has_zero(f.declared_type);
    }
}

fn default_value(tp: Type) -> (r: Option<Value>)
    ensures
        slot_view(r) == default_slot(tp),
{
    let e = DateTimeValue { year: 1970, month: 1, day: 1, hour: 0, minute: 0, second: 0, nanosecond: 0 };
    match tp {
        Type::Float => Some(Value::Float(FloatValue { mantissa: 0, scale: 0 })),
        Type::Integer => Some(Value::Integer(0)),
        Type::Text => Some(Value::Text(String::new())),
        Type::Date => Some(Value::Date(e)),
        Type::DateTime => Some(Value::DateTime(e)),
        Type::Decimal => Some(Value::Decimal(DecimalValue { mantissa: 0, scale: 0 })),
        Type::Bool => Some(Value::Bool(false)),
        Type::Duration => Some(Value::Duration(DurationValue { secs: 0, nanos: 0 })),
        _ => None,
    }
}

} // verus!
