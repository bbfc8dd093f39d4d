//! Laws that tie the codec's and the dispatch's operations together.
use vstd::prelude::*;
use crate::field::{id_name, FieldView};
use crate::field_type::{OptionalType, Type};
use crate::float::lemma_float_round_trip;
use crate::record::{diff_indices, has_name, index_of_name, set_effect, slots_match, unique_names, Record};
use crate::text::lemma_int_round_trip;
use crate::time::{DurationValue, DURATION_MAX_SECS};
use crate::value::{decode_spec, fits, round_trips, slot_text, value_text, value_wf, ValueView};

verus! {

/// Decoding the canonical text of a value gives the value back, for every
/// kind whose parser this library states in full (floats, integers, text,
/// booleans, durations of whole seconds). Decimals and dates go through
/// their outside parsers; `decode_value` states the same for them.
pub proof fn law_round_trip(tp: Type, decl_type: Seq<char>, v: ValueView)
    requires
        fits(tp, decl_type, v),
        value_wf(v),
        round_trips(v),
        !(tp is Decimal || tp is Date || tp is DateTime),
    ensures
        decode_spec(tp, decl_type, value_text(v)) == Some(v),
{
    match v {
        ValueView::Float(f) => {
            lemma_float_round_trip(f);
        },
        ValueView::Integer(i) => {
            let r = crate::value::int_range(decl_type);
            lemma_int_round_trip(i, r.0, r.1, r.2);
        },
        ValueView::Bool(b) => {},
        ValueView::Duration(d) => {
            lemma_int_round_trip(d.whole_seconds(), true, -DURATION_MAX_SECS as int, DURATION_MAX_SECS as int);
            assert(DurationValue::of_seconds(d.whole_seconds()) == d);
        },
        _ => {},
    }
}

/// Wrapping a plain kind in `Optional` keeps every query for a plain kind:
/// the optional kind answers each one as the wrapped kind does, and is
/// optional besides.
pub proof fn law_optional_transparency(o: OptionalType, q: Type)
    requires
        !(q is Optional),
    ensures
        Type::Optional(o).is_type_spec(q) == o.base().is_type_spec(q),
        Type::Optional(o) is Optional,
        Type::Optional(o).plain() == o.base(),
{
}

/// Emptying an optional slot makes it read as `NULL`.
pub proof fn law_null(
    before: Seq<Option<ValueView>>,
    i: int,
    f: FieldView,
    r: Result<(), crate::record::ReflectError>,
    after: Seq<Option<ValueView>>,
)
    requires
        0 <= i < before.len(),
        set_effect(before, i, f, None, r, after),
    ensures
        r is Ok,
        slot_text(after[i]) == seq!['N', 'U', 'L', 'L'],
{
}

/// A boolean field accepts exactly `0` and `1`, and writes back the text it
/// read.
pub proof fn law_bool_codec(decl_type: Seq<char>, s: Seq<char>)
    ensures
        decode_spec(Type::Bool, decl_type, s) is Some <==> (s == seq!['0'] || s == seq!['1']),
        decode_spec(Type::Bool, decl_type, s) matches Some(v) ==> value_text(v) == s,
{
}

/// In a well-formed record no two fields share a name, and the field that
/// a name looks up carries that name; so the field found for `id` is the
/// primary key.
pub proof fn law_schema_integrity(r: Record)
    requires
        r.wf(),
    ensures
        unique_names(r.schema()),
        has_name(r.schema(), id_name()) ==> r.schema()[index_of_name(r.schema(), id_name())].is_id(),
{
}

/// Two records whose slots differ at one float field by at most the
/// tolerance compare equal; two whose slots differ at a field that does
/// not hold floats compare unequal.
pub proof fn law_equality_tolerance(a: Seq<Option<ValueView>>, b: Seq<Option<ValueView>>, i: int)
    requires
        a.len() == b.len(),
        0 <= i < a.len(),
        forall|j: int| 0 <= j < a.len() && j != i ==> a[j] == b[j],
    ensures
        (a[i] matches Some(ValueView::Float(x)) && b[i] matches Some(ValueView::Float(y))
            && crate::float::float_close(x, y)) ==> diff_indices(a, b, a.len()).len() == 0,
        !(a[i] matches Some(ValueView::Float(_)) && b[i] matches Some(ValueView::Float(_))) && a[i] != b[i]
            ==> diff_indices(a, b, a.len()).len() > 0,
{
    lemma_diff_len(a, b, a.len(), i);
}

proof fn lemma_diff_len(a: Seq<Option<ValueView>>, b: Seq<Option<ValueView>>, n: nat, i: int)
    requires
        n <= a.len() == b.len(),
        0 <= i < a.len(),
        forall|j: int| 0 <= j < a.len() && j != i ==> a[j] == b[j],
    ensures
        (i >= n || slots_match(a[i], b[i])) ==> diff_indices(a, b, n).len() == 0,
        (i < n && !slots_match(a[i], b[i])) ==> diff_indices(a, b, n).len() > 0,
    decreases n,
{
    if n > 0 {
        lemma_diff_len(a, b, (n - 1) as nat, i);
        let k = n - 1;
        if k != i {
            assert(a[k] == b[k]);
            match a[k] {
                Some(ValueView::Float(x)) => {
                    crate::float::lemma_float_close_refl(x);
                },
                _ => {},
            }
        }
    }
}

} // verus!
