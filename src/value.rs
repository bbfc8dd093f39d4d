use vstd::prelude::*;
use crate::decimal::{decimal_parse_of, decimal_text, decode_decimal, encode_decimal, DecimalValue};
use crate::field_type::Type;
use crate::float::{decode_float, encode_float, lemma_float_round_trip, parse_float, float_text, FloatValue};
use crate::text::{int_text, int_to_text, lemma_int_round_trip, parse_int_in, parse_integer, str_eq};
use crate::time::{
    datetime_text, decode_datetime, decode_datetime_spec, decode_duration, decode_duration_spec,
    duration_text, encode_datetime, encode_duration, DateTimeValue, DurationValue,
};

verus! {

/// A field's value, of one of the kinds the codec handles.
#[derive(Debug, PartialEq)]
pub enum Value {
    Float(FloatValue),
    Integer(i128),
    Text(String),
    Date(DateTimeValue),
    Decimal(DecimalValue),
    Bool(bool),
    Duration(DurationValue),
    DateTime(DateTimeValue),
}

/// What a `Value` holds, with text as characters.
pub enum ValueView {
    Float(FloatValue),
    Integer(int),
    Text(Seq<char>),
    Date(DateTimeValue),
    Decimal(DecimalValue),
    Bool(bool),
    Duration(DurationValue),
    DateTime(DateTimeValue),
}

impl View for Value {
    type V = ValueView;

    open spec fn view(&self) -> ValueView {
        match self {
            Value::Float(f) => ValueView::Float(*f),
            Value::Integer(i) => ValueView::Integer(*i as int),
            Value::Text(s) => ValueView::Text(s@),
            Value::Date(d) => ValueView::Date(*d),
            Value::Decimal(d) => ValueView::Decimal(*d),
            Value::Bool(b) => ValueView::Bool(*b),
            Value::Duration(d) => ValueView::Duration(*d),
            Value::DateTime(d) => ValueView::DateTime(*d),
        }
    }
}

/// Sign and bounds of the integer type named `decl_type`; a name that is
/// not one of Rust's fixed-width integer types counts as `i64`.
pub open spec fn int_range(decl_type: Seq<char>) -> (bool, int, int) {
    if decl_type == "i8"@ {
        (true, -0x80, 0x7f)
    } else if decl_type == "u8"@ {
        (false, 0, 0xff)
    } else if decl_type == "i16"@ {
        (true, -0x8000, 0x7fff)
    } else if decl_type == "u16"@ {
        (false, 0, 0xffff)
    } else if decl_type == "i32"@ {
        (true, -0x8000_0000, 0x7fff_ffff)
    } else if decl_type == "u32"@ {
        (false, 0, 0xffff_ffff)
    } else if decl_type == "u64"@ || decl_type == "usize"@ {
        (false, 0, 0xffff_ffff_ffff_ffff)
    } else {
        (true, -0x8000_0000_0000_0000, 0x7fff_ffff_ffff_ffff)
    }
}

/// `int_range` computed.
pub fn integer_range(decl_type: &str) -> (r: (bool, i128, i128))
    ensures
        r.0 == int_range(decl_type@).0,
        r.1 as int == int_range(decl_type@).1,
        r.2 as int == int_range(decl_type@).2,
{
    if str_eq(decl_type, "i8") {
        (true, -0x80, 0x7f)
    } else if str_eq(decl_type, "u8") {
        (false, 0, 0xff)
    } else if str_eq(decl_type, "i16") {
        (true, -0x8000, 0x7fff)
    } else if str_eq(decl_type, "u16") {
        (false, 0, 0xffff)
    } else if str_eq(decl_type, "i32") {
        (true, -0x8000_0000, 0x7fff_ffff)
    } else if str_eq(decl_type, "u32") {
        (false, 0, 0xffff_ffff)
    } else if str_eq(decl_type, "u64") || str_eq(decl_type, "usize") {
        (false, 0, 0xffff_ffff_ffff_ffff)
    } else {
        (true, -0x8000_0000_0000_0000, 0x7fff_ffff_ffff_ffff)
    }
}

/// `v` is a well-formed value of the plain kind `tp` whose declared type is
/// `decl_type`.
pub open spec fn fits(tp: Type, decl_type: Seq<char>, v: ValueView) -> bool {
    match (tp, v) {
        (Type::Float, ValueView::Float(f)) => f.wf(),
        (Type::Integer, ValueView::Integer(i)) => int_range(decl_type).1 <= i <= int_range(decl_type).2,
        (Type::Text, ValueView::Text(_)) => true,
        (Type::Date, ValueView::Date(d)) => d.wf(),
        (Type::DateTime, ValueView::DateTime(d)) => d.wf(),
        (Type::Decimal, ValueView::Decimal(d)) => d.wf(),
        (Type::Bool, ValueView::Bool(_)) => true,
        (Type::Duration, ValueView::Duration(d)) => d.wf(),
        _ => false,
    }
}

/// The canonical text of a value.
pub open spec fn value_text(v: ValueView) -> Seq<char> {
    match v {
        ValueView::Float(f) => float_text(f),
        ValueView::Integer(i) => int_text(i),
        ValueView::Text(s) => s,
        ValueView::Date(d) => datetime_text(d),
        ValueView::DateTime(d) => datetime_text(d),
        ValueView::Decimal(d) => decimal_text(d.mantissa as int, d.scale as nat),
        ValueView::Bool(b) => if b {
            seq!['1']
        } else {
            seq!['0']
        },
        ValueView::Duration(d) => duration_text(d),
    }
}

/// The canonical text of a slot: its value's, or `NULL` where it is empty.
pub open spec fn slot_text(o: Option<ValueView>) -> Seq<char> {
    match o {
        Some(v) => value_text(v),
        None => seq!['N', 'U', 'L', 'L'],
    }
}

/// The value that `s` denotes for the plain kind `tp`, if any.
pub open spec fn decode_spec(tp: Type, decl_type: Seq<char>, s: Seq<char>) -> Option<ValueView> {
    match tp {
        Type::Float => match parse_float(s) {
            Some(f) => Some(ValueView::Float(f)),
            None => None,
        },
        Type::Integer => {
            let r = int_range(decl_type);
            match parse_int_in(s, r.0, r.1, r.2) {
                Some(i) => Some(ValueView::Integer(i)),
                None => None,
            }
        },
        Type::Text => Some(ValueView::Text(s)),
        Type::Date => match decode_datetime_spec(s) {
            Some(d) => Some(ValueView::Date(d)),
            None => None,
        },
        Type::DateTime => match decode_datetime_spec(s) {
            Some(d) => Some(ValueView::DateTime(d)),
            None => None,
        },
        Type::Decimal => match decimal_parse_of(s) {
            Some(p) => Some(ValueView::Decimal(DecimalValue { mantissa: p.0 as i128, scale: p.1 as u32 })),
            None => None,
        },
        Type::Bool => if s == seq!['0'] {
            Some(ValueView::Bool(false))
        } else if s == seq!['1'] {
            Some(ValueView::Bool(true))
        } else {
            None
        },
        Type::Duration => match decode_duration_spec(s) {
            Some(d) => Some(ValueView::Duration(d)),
            None => None,
        },
        _ => None,
    }
}

/// Values whose canonical text the codec reads back exactly: every value
/// but durations with a fraction of a second, which the text drops.
pub open spec fn round_trips(v: ValueView) -> bool {
    match v {
        ValueView::Duration(d) => d.nanos == 0,
        _ => true,
    }
}

/// Encodes a well-formed value.
pub fn encode_value(v: &Value) -> (r: String)
    requires
        value_wf(v@),
    ensures
        r@ == value_text(v@),
{
    match v {
        Value::Float(f) => encode_float(*f),
        Value::Integer(i) => int_to_text(*i),
        Value::Text(s) => s.clone(),
        Value::Date(d) => encode_datetime(*d),
        Value::DateTime(d) => encode_datetime(*d),
        Value::Decimal(d) => encode_decimal(*d),
        Value::Bool(b) => {
            proof {
                reveal_strlit("0");
                reveal_strlit("1");
                assert("0"@ =~= seq!['0']);
                assert("1"@ =~= seq!['1']);
            }
            if *b {
                String::from_str("1")
            } else {
                String::from_str("0")
            }
        },
        Value::Duration(d) => encode_duration(*d),
    }
}

/// Each component of `v` is well formed.
pub open spec fn value_wf(v: ValueView) -> bool {
    match v {
        ValueView::Float(f) => f.wf(),
        ValueView::Date(d) => d.wf(),
        ValueView::DateTime(d) => d.wf(),
        ValueView::Decimal(d) => d.wf(),
        ValueView::Duration(d) => d.wf(),
        _ => true,
    }
}

/// Decodes `s` as a value of the plain kind `tp`. Exactly the values that
/// the kind admits come back, and the canonical text of each value that
/// round-trips decodes to that value.
pub fn decode_value(tp: Type, decl_type: &str, s: &str) -> (r: Option<Value>)
    ensures
        r matches Some(v) ==> Some(v@) == decode_spec(tp, decl_type@, s@) && fits(tp, decl_type@, v@)
            && value_wf(v@),
        r is None ==> decode_spec(tp, decl_type@, s@) is None,
        forall|v: ValueView|
            fits(tp, decl_type@, v) && round_trips(v) && s@ == #[trigger] value_text(v) ==> (r matches Some(
                w,
            ) && w@ == v),
{
    match tp {
        Type::Float => match decode_float(s) {
            Some(f) => {
                proof {
                    assert forall|v: ValueView|
                        fits(tp, decl_type@, v) && s@ == #[trigger] value_text(v) implies v == ValueView::Float(
                        f,
                    ) by {
                        if let ValueView::Float(g) = v {
                            lemma_float_round_trip(g);
                        }
                    }
                }
                Some(Value::Float(f))
            },
            None => {
                proof {
                    assert forall|v: ValueView| fits(tp, decl_type@, v) implies s@ != #[trigger] value_text(v) by {
                        if let ValueView::Float(g) = v {
                            lemma_float_round_trip(g);
                        }
                    }
                }
                None
            },
        },
        Type::Integer => {
            let range = integer_range(decl_type);
            proof {
                assert forall|v: ValueView| fits(tp, decl_type@, v) implies parse_int_in(
                    #[trigger] value_text(v),
                    range.0,
                    range.1 as int,
                    range.2 as int,
                ) == Some(v->Integer_0) by {
                    lemma_int_round_trip(v->Integer_0, range.0, range.1 as int, range.2 as int);
                }
            }
            match parse_integer(s, range.0, range.1, range.2) {
                Some(i) => Some(Value::Integer(i)),
                None => None,
            }
        },
        Type::Text => Some(Value::Text(String::from_str(s))),
        Type::Date => {
            let r = decode_datetime(s);
            proof {
                assert forall|v: ValueView|
                    fits(tp, decl_type@, v) && s@ == #[trigger] value_text(v) implies r == Some(v->Date_0) by {
                    assert(datetime_text(v->Date_0) == value_text(v));
                }
            }
            match r {
                Some(d) => Some(Value::Date(d)),
                None => None,
            }
        },
        Type::DateTime => {
            let r = decode_datetime(s);
            proof {
                assert forall|v: ValueView|
                    fits(tp, decl_type@, v) && s@ == #[trigger] value_text(v) implies r == Some(v->DateTime_0) by {
                    assert(datetime_text(v->DateTime_0) == value_text(v));
                }
            }
            match r {
                Some(d) => Some(Value::DateTime(d)),
                None => None,
            }
        },
        Type::Decimal => {
            let r = decode_decimal(s);
            proof {
                assert forall|v: ValueView|
                    fits(tp, decl_type@, v) && round_trips(v) && s@ == #[trigger] value_text(v) implies r == Some(
                    v->Decimal_0,
                ) by {
                    let d = v->Decimal_0;
                    assert(decimal_text(d.mantissa as int, d.scale as nat) == value_text(v));
                }
            }
            match r {
                Some(d) => Some(Value::Decimal(d)),
                None => None,
            }
        },
        Type::Bool => {
            proof {
                reveal_strlit("0");
                reveal_strlit("1");
                assert("0"@ =~= seq!['0']);
                assert("1"@ =~= seq!['1']);
            }
            if str_eq(s, "0") {
                Some(Value::Bool(false))
            } else if str_eq(s, "1") {
                Some(Value::Bool(true))
            } else {
                None
            }
        },
        Type::Duration => {
            let r = decode_duration(s);
            proof {
                assert forall|v: ValueView|
                    fits(tp, decl_type@, v) && round_trips(v) && s@ == #[trigger] value_text(v) implies r == Some(
                    v->Duration_0,
                ) by {
                    let g = v->Duration_0;
                    lemma_int_round_trip(
                        g.whole_seconds(),
                        true,
                        -crate::time::DURATION_MAX_SECS as int,
                        crate::time::DURATION_MAX_SECS as int,
                    );
                    assert(DurationValue::of_seconds(g.whole_seconds()) == g);
                }
            }
            match r {
                Some(d) => Some(Value::Duration(d)),
                None => None,
            }
        },
        _ => None,
    }
}

pub proof fn lemma_int_range_has_zero(decl_type: Seq<char>)
    ensures
        int_range(decl_type).1 <= 0 <= int_range(decl_type).2,
{
}

} // verus!
