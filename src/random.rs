use vstd::prelude::*;
use chrono::{Datelike, Timelike};
use fake::Fake;
use crate::decimal::{decimal_text, encode_decimal, DecimalValue};
use crate::field::{Field, FieldView};
use crate::field_type::Type;
use crate::float::{encode_float, float_text, FloatValue};
use crate::record::{schema_ok, Record};
use crate::text::{contains_seq, int_text, int_to_text, str_contains};
use crate::time::{datetime_text, encode_datetime, DateTimeValue, DurationValue};
use crate::value::{fits, int_range, integer_range, round_trips, value_text, ValueView};

verus! {

/// The random choices behind one generated field value.
pub struct Draws {
    /// Whether an optional field gets a value.
    pub present: bool,
    /// A small number in `0..1000`.
    pub number: u32,
    /// A decimal's mantissa.
    pub mantissa: u32,
    /// A decimal's scale, in `1..6`.
    pub scale: u32,
    /// A bit for a boolean.
    pub bit: bool,
    /// Sixteen random letters and digits.
    pub text: String,
    /// A random e-mail address.
    pub email: String,
    /// The current time.
    pub now: DateTimeValue,
}

impl Draws {
    pub open spec fn wf(&self) -> bool {
        &&& self.number < 1000
        &&& 1 <= self.scale < 6
        &&& self.now.wf()
        &&& self.text@.len() == 16
        &&& contains_seq(self.email@, seq!['@'])
    }
}

/// Marker of an e-mail field in a field's name.
pub open spec fn email_marker() -> Seq<char> {
    seq!['e', 'm', 'a', 'i', 'l']
}

/// The largest value below 1000 that the integer type holds.
pub open spec fn small_bound(decl_type: Seq<char>) -> int {
    if int_range(decl_type).2 < 999 {
        int_range(decl_type).2
    } else {
        999
    }
}

/// The value generated for a plain kind.
pub open spec fn random_value(tp: Type, f: FieldView, d: &Draws) -> Option<ValueView> {
    match tp {
        Type::Text => Some(ValueView::Text(if contains_seq(f.name, email_marker()) {
            d.email@
        } else {
            d.text@
        })),
        Type::Integer => Some(ValueView::Integer(d.number as int % (small_bound(f.declared_type) + 1))),
        Type::Float => Some(ValueView::Float(FloatValue { mantissa: d.number as i128, scale: 0 })),
        Type::Decimal => Some(ValueView::Decimal(DecimalValue { mantissa: d.mantissa as i128, scale: d.scale })),
        Type::Bool => Some(ValueView::Bool(d.bit)),
        Type::Date => Some(ValueView::Date(d.now)),
        Type::DateTime => Some(ValueView::DateTime(d.now)),
        Type::Duration => Some(ValueView::Duration(DurationValue { secs: d.number as i64, nanos: 0 })),
        _ => None,
    }
}

/// The text generated for a field: absent for a custom field and, when the
/// draw says so, for an optional one; else the canonical text of a random
/// value of the kind.
pub open spec fn random_text(f: FieldView, d: &Draws) -> Option<Seq<char>> {
    let tp = match f.tp {
        Type::Optional(o) => o.base(),
        _ => f.tp,
    };
    if f.tp is Optional && !d.present {
        None
    } else {
        match random_value(tp, f, d) {
            Some(v) => Some(value_text(v)),
            None => None,
        }
    }
}

/// The value generated for field `f` from draws `d`.
pub open spec fn generated(f: FieldView, d: Draws) -> Option<ValueView> {
    random_value(f.tp.plain(), f, &d)
}

/// A slot that the generator may have filled: empty for a custom field;
/// for any other field a value generated from some well-formed draws, or,
/// for an optional field, empty.
pub open spec fn random_slot_ok(f: FieldView, o: Option<ValueView>) -> bool {
    if f.tp is Enum {
        o is None
    } else {
        (f.tp is Optional && o is None) || exists|d: Draws| d.wf() && #[trigger] generated(f, d) == o
    }
}

/// The text to write into `field` for the given draws.
pub fn random_val(field: &Field, d: &Draws) -> (r: Option<String>)
    requires
        d.wf(),
        field@.wf(),
    ensures
        r matches Some(s) ==> random_text(field@, d) == Some(s@),
        r is None ==> random_text(field@, d) is None,
        field.tp.plain() is Text && !(field.tp is Optional && !d.present) ==> (r matches Some(s) && (if contains_seq(
            field@.name,
            email_marker(),
        ) {
            contains_seq(s@, seq!['@'])
        } else {
            s@.len() == 16
        })),
        field.tp.plain() is Bool && !(field.tp is Optional && !d.present) ==> (r matches Some(s) && (s@
            == seq!['0'] || s@ == seq!['1'])),
{
    if field.tp.is_optional() && !d.present {
        return None;
    }
    let tp = match field.tp.get_optional() {
        Some(o) => o.to_non_optional(),
        None => field.tp,
    };
    match tp {
        Type::Text => {
            proof {
                reveal_strlit("email");
                assert("email"@ =~= email_marker());
            }
            if str_contains(field.name.as_str(), "email") {
                Some(d.email.clone())
            } else {
                Some(d.text.clone())
            }
        },
        Type::Integer => {
            let range = integer_range(field.declared_type.as_str());
            let bound: u32 = if range.2 < 999 {
                range.2 as u32
            } else {
                999
            };
            Some(int_to_text((d.number % (bound + 1)) as i128))
        },
        Type::Float => Some(encode_float(FloatValue { mantissa: d.number as i128, scale: 0 })),
        Type::Decimal => Some(encode_decimal(DecimalValue { mantissa: d.mantissa as i128, scale: d.scale })),
        Type::Bool => {
            proof {
                reveal_strlit("0");
                reveal_strlit("1");
                assert("0"@ =~= seq!['0']);
                assert("1"@ =~= seq!['1']);
            }
            if d.bit {
                Some(String::from_str("1"))
            } else {
                Some(String::from_str("0"))
            }
        },
        Type::Date | Type::DateTime => Some(encode_datetime(d.now)),
        Type::Duration => Some(int_to_text(d.number as i128)),
        _ => None,
    }
}

/// Relies on `fake`'s `Range<u32>` faker: a uniform draw in `0..n`.
#[verifier::external_body]
fn random_below(n: u32) -> (r: u32)
    requires
        n > 0,
    ensures
        r < n,
{
    (0..n).fake::<u32>()
}

/// Relies on `fake`'s `usize` faker for `String`: `len` random ASCII letters
/// and digits.
#[verifier::external_body]
fn random_alphanumeric(len: usize) -> (r: String)
    ensures
        r@.len() == len,
{
    len.fake::<String>()
}

/// Relies on `fake::faker::internet::en::FreeEmail`: a random address,
/// written as user name, `@`, provider.
#[verifier::external_body]
fn random_email() -> (r: String)
    ensures
        contains_seq(r@, seq!['@']),
{
    fake::faker::internet::en::FreeEmail().fake::<String>()
}

/// Relies on `std::time::SystemTime::elapsed` from the Unix epoch: `None`
/// when the clock reads before 1970; else whole seconds and the nanoseconds
/// past them, which `Duration::subsec_nanos` keeps below one billion.
#[verifier::external_body]
fn seconds_since_epoch() -> (r: Option<(u64, u32)>)
    ensures
        r matches Some(p) ==> p.1 < 1_000_000_000,
{
    std::time::UNIX_EPOCH.elapsed().ok().map(|d| (d.as_secs(), d.subsec_nanos()))
}

/// Relies on `chrono::DateTime::from_timestamp`, which returns `None` out of
/// its range rather than panicking, and on the getters of its naive UTC time:
/// year, month, day, hour, minute, second and nanosecond.
#[verifier::external_body]
fn utc_from_timestamp(secs: i64, nanos: u32) -> (r: Option<(i32, u32, u32, u32, u32, u32, u32)>) {
    chrono::DateTime::from_timestamp(secs, nanos).map(|t| {
        let n = t.naive_utc();
        (n.year(), n.month(), n.day(), n.hour(), n.minute(), n.second(), n.nanosecond())
    })
}

/// The current UTC time, where the clock reads one this library holds: not
/// before 1970, no leap second, a year up to 9999.
fn now_utc() -> (r: Option<DateTimeValue>)
    ensures
        r matches Some(d) ==> d.wf(),
{
    let (secs, nanos) = match seconds_since_epoch() {
        Some(p) => p,
        None => {
            return None;
        },
    };
    if secs > i64::MAX as u64 {
        return None;
    }
    let t = match utc_from_timestamp(secs as i64, nanos) {
        Some(t) => t,
        None => {
            return None;
        },
    };
    let d = DateTimeValue {
        year: t.0,
        month: t.1,
        day: t.2,
        hour: t.3,
        minute: t.4,
        second: t.5,
        nanosecond: t.6,
    };
    if d.is_valid() {
        Some(d)
    } else {
        None
    }
}

/// Draws the random choices for one field; `None` when the field needs the
/// clock and it reads a time this library does not hold (before 1970, a
/// leap second, or a year past 9999). The clock is read only for a field
/// that needs it; any other field never reads `now`.
fn draw(needs_clock: bool) -> (r: Option<Draws>)
    ensures
        r matches Some(d) ==> d.wf(),
        r is None ==> needs_clock,
{
    let now = if needs_clock {
        match now_utc() {
            Some(d) => d,
            None => {
                return None;
            },
        }
    } else {
        DateTimeValue { year: 1970, month: 1, day: 1, hour: 0, minute: 0, second: 0, nanosecond: 0 }
    };
    let present = random_below(2) == 1;
    let number = random_below(1000);
    let mantissa = random_below(u32::MAX);
    let scale = random_below(5) + 1;
    let bit = random_below(2) == 1;
    let text = random_alphanumeric(16);
    let email = random_email();
    Some(Draws { present, number, mantissa, scale, bit, text, email, now })
}

/// A record of the given schema with every field that has a codec filled
/// with a random value written through `set_value`; custom fields keep
/// their defaults. `None` where the schema is not well formed, or where a
/// date field needs the clock and it reads a time this library does not
/// hold (before 1970, a leap second, a year past 9999).
pub fn random(name: &str, fields: Vec<Field>) -> (r: Option<Record>)
    ensures
        r matches Some(rec) ==> rec.wf() && rec.name_view() == name@ && rec.schema() == fields@.map_values(
            |f: Field| f@,
        ),
        r matches Some(rec) ==> forall|i: int|
            0 <= i < rec.schema().len() ==> random_slot_ok(#[trigger] rec.schema()[i], rec.slots()[i]),
        r matches Some(rec) ==> forall|i: int|
            0 <= i < rec.schema().len() && !(#[trigger] rec.schema()[i].tp is Optional) && !(
            rec.schema()[i].tp is Enum) ==> rec.slots()[i] is Some,
        r is None ==> !schema_ok(name@, fields@.map_values(|f: Field| f@)) || exists|i: int|
            0 <= i < fields@.len() && ((#[trigger] fields@[i]).tp.plain() is Date
                || fields@[i].tp.plain() is DateTime),
{
    let ghost fv = fields@;
    let ghost fs = fields@.map_values(|f: Field| f@);
    let mut rec = match Record::new(name, fields) {
        Some(r) => r,
        None => {
            return None;
        },
    };
    let n = rec.fields().len();
    let mut i: usize = 0;
    while i < n
        invariant
            rec.wf(),
            rec.name_view() == name@,
            rec.schema() == fs,
            fs == fv.map_values(|f: Field| f@),
            fv == fields@,
            n == fs.len(),
            i <= n,
            forall|k: int| 0 <= k < i ==> random_slot_ok(#[trigger] fs[k], rec.slots()[k]),
        decreases n - i,
    {
        let fl = rec.fields();
        let field = fl[i].copy();
        proof {
            assert(fl@.map_values(|f: Field| f@)[i as int] == fl@[i as int]@);
            assert(field@ == rec.schema()[i as int]);
            assert(rec.has_field(field@));
        }
        if !field.is_enum() {
            let plain = field.non_optional();
            let needs_clock = plain.tp.is_type(Type::Date) || plain.tp.is_type(Type::DateTime);
            let d = match draw(needs_clock) {
                Some(d) => d,
                None => {
                    proof {
                        assert(fv[i as int]@ == fs[i as int]);
                        assert(fv[i as int].tp.plain() is Date || fv[i as int].tp.plain() is DateTime);
                    }
                    return None;
                },
            };
            let ghost before = rec.slots();
            let ghost v = random_value(field.tp.plain(), field@, &d);
            proof {
                lemma_random_fits(field@, &d);
                assert(generated(field@, d) == v);
            }
            let t = random_val(&field, &d);
            let res = match &t {
                Some(s) => rec.set_value(&field, Some(s.as_str())),
                None => {
                    if field.is_optional() {
                        rec.set_value(&field, None)
                    } else {
                        Ok(())
                    }
                },
            };
            if res.is_err() {
                return None;
            }
            proof {
                assert(rec.slots() == before.update(i as int, rec.slots()[i as int]));
                assert(random_slot_ok(fs[i as int], rec.slots()[i as int]));
                assert forall|k: int| 0 <= k < i + 1 implies random_slot_ok(#[trigger] fs[k], rec.slots()[k]) by {
                    if k < i {
                        assert(rec.slots()[k] == before[k]);
                    }
                }
            }
        } else {
            proof {
                assert(crate::record::slot_ok(rec.schema()[i as int], rec.slots()[i as int]));
            }
        }
        i += 1;
    }
    Some(rec)
}

proof fn lemma_random_fits(f: FieldView, d: &Draws)
    requires
        d.wf(),
        f.wf(),
        !(f.tp is Enum),
    ensures
        random_value(f.tp.plain(), f, d) matches Some(v) && fits(f.tp.plain(), f.declared_type, v) && round_trips(v),
{
    let tp = f.tp.plain();
    if tp is Integer {
        let b = small_bound(f.declared_type);
        crate::value::lemma_int_range_has_zero(f.declared_type);
        assert(0 <= d.number as int % (b + 1) <= b);
    }
}

} // verus!
