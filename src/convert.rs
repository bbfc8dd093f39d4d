use vstd::prelude::*;
use crate::decimal::{decimal_parse_of, decimal_text, decode_decimal, encode_decimal, DecimalValue};
use crate::float::{decode_float, encode_float, float_text, parse_float, FloatValue};
use crate::text::{int_text, int_to_text, parse_int_in, parse_integer};
use crate::time::{
    datetime_text, decode_datetime, decode_datetime_spec, decode_duration, decode_duration_spec,
    duration_text, encode_datetime, encode_duration, DateTimeValue, DurationValue,
};
use crate::value::{encode_value, slot_text, value_text, value_wf, Value};

verus! {

/// Canonical text of a value.
pub trait ToReflectedString {
    /// The value is one the codec can write.
    spec fn reflected_ok(&self) -> bool;

    /// The text that the codec writes.
    spec fn reflected_text(&self) -> Seq<char>;

    fn to_reflected_string(&self) -> (r: String)
        requires
            self.reflected_ok(),
        ensures
            r@ == self.reflected_text(),
    ;
}

impl ToReflectedString for Value {
    open spec fn reflected_ok(&self) -> bool {
        value_wf(self@)
    }

    open spec fn reflected_text(&self) -> Seq<char> {
        value_text(self@)
    }

    fn to_reflected_string(&self) -> (r: String) {
        encode_value(self)
    }
}

impl ToReflectedString for Option<Value> {
    open spec fn reflected_ok(&self) -> bool {
        self matches Some(v) ==> value_wf(v@)
    }

    open spec fn reflected_text(&self) -> Seq<char> {
        slot_text(crate::record::slot_view(*self))
    }

    fn to_reflected_string(&self) -> (r: String) {
        match self {
            Some(v) => encode_value(v),
            None => {
                proof {
                    reveal_strlit("NULL");
                    assert("NULL"@ =~= seq!['N', 'U', 'L', 'L']);
                }
                String::from_str("NULL")
            },
        }
    }
}

impl ToReflectedString for FloatValue {
    open spec fn reflected_ok(&self) -> bool {
        self.wf()
    }

    open spec fn reflected_text(&self) -> Seq<char> {
        float_text(*self)
    }

    fn to_reflected_string(&self) -> (r: String) {
        encode_float(*self)
    }
}

impl ToReflectedString for DecimalValue {
    open spec fn reflected_ok(&self) -> bool {
        self.wf()
    }

    open spec fn reflected_text(&self) -> Seq<char> {
        decimal_text(self.mantissa as int, self.scale as nat)
    }

    fn to_reflected_string(&self) -> (r: String) {
        encode_decimal(*self)
    }
}

impl ToReflectedString for DateTimeValue {
    open spec fn reflected_ok(&self) -> bool {
        self.wf()
    }

    open spec fn reflected_text(&self) -> Seq<char> {
        datetime_text(*self)
    }

    fn to_reflected_string(&self) -> (r: String) {
        encode_datetime(*self)
    }
}

impl ToReflectedString for DurationValue {
    open spec fn reflected_ok(&self) -> bool {
        true
    }

    open spec fn reflected_text(&self) -> Seq<char> {
        duration_text(*self)
    }

    fn to_reflected_string(&self) -> (r: String) {
        encode_duration(*self)
    }
}

impl ToReflectedString for i128 {
    open spec fn reflected_ok(&self) -> bool {
        true
    }

    open spec fn reflected_text(&self) -> Seq<char> {
        int_text(*self as int)
    }

    fn to_reflected_string(&self) -> (r: String) {
        int_to_text(*self)
    }
}

/// The message of a failed read: the target type's name and the text.
pub open spec fn failure_text(target: Seq<char>, input: Seq<char>) -> Seq<char> {
    "Failed to parse "@ + target + " from: "@ + input
}

/// Reads a value of type `T` from text.
pub trait ToReflectedVal<T> {
    /// The name of `T` that an error message gives.
    spec fn target_name(&self) -> Seq<char>;

    /// The text read.
    spec fn source_text(&self) -> Seq<char>;

    /// The text denotes a value of `T`.
    spec fn readable(&self) -> bool;

    /// `v` is the value that the text denotes.
    spec fn reads_as(&self, v: T) -> bool;

    fn to_reflected_val(&self) -> (r: Result<T, String>)
        ensures
            r is Ok <==> self.readable(),
            r matches Ok(v) ==> self.reads_as(v),
            r matches Err(e) ==> e@ == failure_text(self.target_name(), self.source_text()),
    ;
}

/// The message of a failed read of `s` as a `target`.
fn parse_failure(target: &str, s: &str) -> (r: String)
    ensures
        r@ == failure_text(target@, s@),
{
    let mut m = String::from_str("Failed to parse ");
    m.append(target);
    m.append(" from: ");
    m.append(s);
    m
}

impl ToReflectedVal<FloatValue> for str {
    open spec fn source_text(&self) -> Seq<char> {
        self@
    }

    open spec fn target_name(&self) -> Seq<char> {
        "float"@
    }

    open spec fn readable(&self) -> bool {
        parse_float(self@) is Some
    }

    open spec fn reads_as(&self, v: FloatValue) -> bool {
        parse_float(self@) == Some(v) && v.wf()
    }

    fn to_reflected_val(&self) -> (r: Result<FloatValue, String>) {
        match decode_float(self) {
            Some(f) => Ok(f),
            None => Err(parse_failure("float", self)),
        }
    }
}

impl ToReflectedVal<i128> for str {
    open spec fn source_text(&self) -> Seq<char> {
        self@
    }

    open spec fn target_name(&self) -> Seq<char> {
        "integer"@
    }

    open spec fn readable(&self) -> bool {
        parse_int_in(self@, true, -0x8000_0000_0000_0000, 0xffff_ffff_ffff_ffff) is Some
    }

    open spec fn reads_as(&self, v: i128) -> bool {
        parse_int_in(self@, true, -0x8000_0000_0000_0000, 0xffff_ffff_ffff_ffff) == Some(v as int)
    }

    fn to_reflected_val(&self) -> (r: Result<i128, String>) {
        match parse_integer(self, true, -0x8000_0000_0000_0000, 0xffff_ffff_ffff_ffff) {
            Some(v) => Ok(v),
            None => Err(parse_failure("integer", self)),
        }
    }
}

impl ToReflectedVal<String> for str {
    open spec fn source_text(&self) -> Seq<char> {
        self@
    }

    open spec fn target_name(&self) -> Seq<char> {
        "text"@
    }

    open spec fn readable(&self) -> bool {
        true
    }

    open spec fn reads_as(&self, v: String) -> bool {
        v@ == self@
    }

    fn to_reflected_val(&self) -> (r: Result<String, String>) {
        Ok(String::from_str(self))
    }
}

impl ToReflectedVal<DecimalValue> for str {
    open spec fn source_text(&self) -> Seq<char> {
        self@
    }

    open spec fn target_name(&self) -> Seq<char> {
        "decimal"@
    }

    open spec fn readable(&self) -> bool {
        decimal_parse_of(self@) is Some
    }

    open spec fn reads_as(&self, v: DecimalValue) -> bool {
        decimal_parse_of(self@) == Some((v.mantissa as int, v.scale as nat)) && v.wf()
    }

    fn to_reflected_val(&self) -> (r: Result<DecimalValue, String>) {
        match decode_decimal(self) {
            Some(d) => Ok(d),
            None => Err(parse_failure("decimal", self)),
        }
    }
}

impl ToReflectedVal<DurationValue> for str {
    open spec fn source_text(&self) -> Seq<char> {
        self@
    }

    open spec fn target_name(&self) -> Seq<char> {
        "duration"@
    }

    open spec fn readable(&self) -> bool {
        decode_duration_spec(self@) is Some
    }

    open spec fn reads_as(&self, v: DurationValue) -> bool {
        decode_duration_spec(self@) == Some(v)
    }

    fn to_reflected_val(&self) -> (r: Result<DurationValue, String>) {
        match decode_duration(self) {
            Some(d) => Ok(d),
            None => Err(parse_failure("duration", self)),
        }
    }
}

impl ToReflectedVal<DateTimeValue> for str {
    open spec fn source_text(&self) -> Seq<char> {
        self@
    }

    open spec fn target_name(&self) -> Seq<char> {
        "date and time"@
    }

    open spec fn readable(&self) -> bool {
        decode_datetime_spec(self@) is Some
    }

    open spec fn reads_as(&self, v: DateTimeValue) -> bool {
        decode_datetime_spec(self@) == Some(v)
    }

    fn to_reflected_val(&self) -> (r: Result<DateTimeValue, String>) {
        match decode_datetime(self) {
            Some(d) => Ok(d),
            None => Err(parse_failure("date and time", self)),
        }
    }
}

} // verus!
