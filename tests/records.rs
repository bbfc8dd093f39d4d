use reflected::decimal::DecimalValue;
use reflected::float::FloatValue;
use reflected::record::{Record, ReflectError};
use reflected::time::{DateTimeValue, DurationValue};
use reflected::value::{decode_value, encode_value, Value};
use reflected::{kind_of_declared, Field, OptionalType, ToReflectedString, ToReflectedVal, Type};

fn user_fields() -> Vec<Field> {
    let p = "User";
    vec![
        Field::new("id", Type::Integer, "usize", p),
        Field::new("name", Type::Text, "String", p),
        Field::new("email", Type::Text, "String", p),
        Field::new("birthday", Type::Date, "DateTime", p),
        Field::new("age", Type::Integer, "usize", p),
        Field::new("custom_id", Type::Integer, "usize", p),
        Field::new("cash", Type::Decimal, "Decimal", p),
        Field::new("sercli_cash", Type::Decimal, "Decimal", p),
        Field::new("is_poros", Type::Bool, "bool", p),
        Field::new("height", Type::Float, "f64", p),
        Field::new("dogs_count", Type::Integer, "i16", p),
        Field::new("enum_field", Type::Enum, "SomeEnum", p),
        Field::new("spent_eating_hotdogs", Type::Duration, "Duration", p),
        Field::new("str_opt", Type::Text.to_optional(), "String", p),
        Field::new("usize_opt", Type::Integer.to_optional(), "usize", p),
        Field::new("bool_opt", Type::Bool.to_optional(), "bool", p),
        Field::new("decimal_opt", Type::Decimal.to_optional(), "Decimal", p),
    ]
}

fn new_user() -> Record {
    Record::new("User", user_fields()).unwrap()
}

fn put(r: &mut Record, name: &str, value: Option<&str>) {
    let f = r.field_by_name(name);
    r.set_value(&f, value).unwrap();
}

fn read(r: &Record, name: &str) -> String {
    let f = r.field_by_name(name);
    r.get_value(&f).unwrap()
}

const BIRTHDAY: &str = "2024-03-05 10:20:30.123456789";

fn peter() -> Record {
    let mut u = new_user();
    put(&mut u, "id", Some("0"));
    put(&mut u, "name", Some("peter"));
    put(&mut u, "email", Some("peter@example.com"));
    put(&mut u, "birthday", Some(BIRTHDAY));
    put(&mut u, "age", Some("15"));
    put(&mut u, "custom_id", Some("0"));
    put(&mut u, "cash", Some("100.25"));
    put(&mut u, "sercli_cash", Some("25.45"));
    put(&mut u, "is_poros", Some("0"));
    put(&mut u, "height", Some("6.45"));
    put(&mut u, "dogs_count", Some("5"));
    put(&mut u, "spent_eating_hotdogs", Some("200"));
    u
}

#[test]
fn test() {
    assert!(Type::Float.is_float());
    assert!(Type::Float.to_optional().is_float());
}

#[test]
fn fields() {
    let u = new_user();
    assert!(u.field_by_name("id").is_id());
    assert!(u.field_by_name("custom_id").is_foreign_id());
    assert!(u.field_by_name("birthday").is_date());
    assert!(u.field_by_name("cash").is_decimal());
    assert!(u.field_by_name("sercli_cash").is_decimal());
    assert!(u.field_by_name("is_poros").is_bool());
    assert!(u.field_by_name("height").is_float());
    assert!(u.field_by_name("dogs_count").is_integer());
    assert!(u.field_by_name("spent_eating_hotdogs").is_duration());

    assert!(u.field_by_name("str_opt").is_optional());
    assert!(u.field_by_name("str_opt").is_text());

    assert!(u.field_by_name("usize_opt").is_optional());
    assert!(u.field_by_name("usize_opt").is_integer());

    assert!(u.field_by_name("bool_opt").is_optional());
    assert!(u.field_by_name("bool_opt").is_bool());

    assert!(u.field_by_name("decimal_opt").is_optional());
    assert!(u.field_by_name("decimal_opt").is_decimal());

    assert_eq!(u.fields().len(), 17);
}

#[test]
fn types() {
    let u = new_user();
    assert_eq!(u.field_by_name("id").declared_type, "usize");
    assert_eq!(u.field_by_name("birthday").declared_type, "DateTime");
    assert_eq!(u.field_by_name("cash").declared_type, "Decimal");
    assert_eq!(u.field_by_name("is_poros").declared_type, "bool");
    assert_eq!(u.field_by_name("height").declared_type, "f64");
    assert_eq!(u.field_by_name("dogs_count").declared_type, "i16");
    assert_eq!(u.field_by_name("spent_eating_hotdogs").declared_type, "Duration");
    assert_eq!(u.field_by_name("str_opt").declared_type, "String");
    assert_eq!(u.field_by_name("usize_opt").declared_type, "usize");
    assert_eq!(u.field_by_name("bool_opt").declared_type, "bool");
    assert_eq!(u.field_by_name("decimal_opt").declared_type, "Decimal");
}

#[test]
fn get() {
    let mut user = peter();

    assert_eq!(read(&user, "name"), "peter".to_string());
    assert_eq!(read(&user, "age"), "15".to_string());
    assert_eq!(read(&user, "birthday"), BIRTHDAY.to_string());
    assert_eq!(read(&user, "cash"), "100.25".to_string());
    assert_eq!(read(&user, "is_poros"), "0".to_string());
    assert_eq!(read(&user, "height"), "6.45".to_string());
    assert_eq!(read(&user, "dogs_count"), "5".to_string());
    assert_eq!(read(&user, "spent_eating_hotdogs"), "200".to_string());

    assert_eq!(read(&user, "str_opt"), "NULL".to_string());
    assert_eq!(read(&user, "usize_opt"), "NULL".to_string());
    assert_eq!(read(&user, "bool_opt"), "NULL".to_string());
    assert_eq!(read(&user, "decimal_opt"), "NULL".to_string());

    put(&mut user, "str_opt", Some("stre"));
    put(&mut user, "usize_opt", Some("222"));
    put(&mut user, "bool_opt", Some("0"));
    put(&mut user, "decimal_opt", Some("100.25"));

    assert_eq!(read(&user, "str_opt"), "stre".to_string());
    assert_eq!(read(&user, "usize_opt"), "222".to_string());
    assert_eq!(read(&user, "bool_opt"), "0".to_string());
    assert_eq!(read(&user, "decimal_opt"), "100.25".to_string());
}

#[test]
fn set() {
    let mut user = peter();
    put(&mut user, "email", Some(""));
    let new_bd = "2025-11-30 23:59:59.000000001";

    put(&mut user, "name", Some("parker"));
    put(&mut user, "age", Some("19"));
    put(&mut user, "birthday", Some(new_bd));
    put(&mut user, "cash", Some("100.71"));
    put(&mut user, "sercli_cash", Some("33.23"));
    put(&mut user, "spent_eating_hotdogs", Some("555"));
    put(&mut user, "is_poros", Some("1"));
    put(&mut user, "height", Some("5.467"));
    put(&mut user, "dogs_count", Some("17"));

    assert_eq!(read(&user, "name"), "parker".to_string());
    assert_eq!(read(&user, "age"), "19".to_string());
    assert_eq!(read(&user, "birthday"), new_bd.to_string());
    assert_eq!(read(&user, "cash"), "100.71".to_string());
    assert_eq!(read(&user, "sercli_cash"), "33.23".to_string());
    assert_eq!(read(&user, "spent_eating_hotdogs"), "555".to_string());
    assert_eq!(read(&user, "is_poros"), "1".to_string());
    assert_eq!(read(&user, "height"), "5.467".to_string());
    assert_eq!(read(&user, "dogs_count"), "17".to_string());

    put(&mut user, "str_opt", Some("sokol"));
    put(&mut user, "usize_opt", Some("555"));
    put(&mut user, "bool_opt", Some("1"));
    put(&mut user, "decimal_opt", Some("100.71"));

    assert_eq!(read(&user, "str_opt"), "sokol".to_string());
    assert_eq!(read(&user, "usize_opt"), "555".to_string());
    assert_eq!(read(&user, "bool_opt"), "1".to_string());
    assert_eq!(read(&user, "decimal_opt"), "100.71".to_string());

    put(&mut user, "str_opt", None);
    put(&mut user, "usize_opt", None);
    put(&mut user, "bool_opt", None);
    put(&mut user, "decimal_opt", None);

    assert_eq!(read(&user, "str_opt"), "NULL".to_string());
    assert_eq!(read(&user, "usize_opt"), "NULL".to_string());
    assert_eq!(read(&user, "bool_opt"), "NULL".to_string());
    assert_eq!(read(&user, "decimal_opt"), "NULL".to_string());

    let mut expected = new_user();
    put(&mut expected, "id", Some("0"));
    put(&mut expected, "name", Some("parker"));
    put(&mut expected, "email", Some(""));
    put(&mut expected, "birthday", Some(new_bd));
    put(&mut expected, "age", Some("19"));
    put(&mut expected, "custom_id", Some("0"));
    put(&mut expected, "cash", Some("100.71"));
    put(&mut expected, "sercli_cash", Some("33.23"));
    put(&mut expected, "is_poros", Some("1"));
    put(&mut expected, "height", Some("5.467"));
    put(&mut expected, "dogs_count", Some("17"));
    put(&mut expected, "spent_eating_hotdogs", Some("555"));
    for f in user.fields() {
        if f.is_enum() {
            continue;
        }
        assert_eq!(user.get_value(f).unwrap(), expected.get_value(f).unwrap());
    }
    assert!(user.reflected_eq(&expected));
    assert!(user.differences(&expected).is_empty());
}

#[test]
fn random() {
    let u = reflected::random::random("User", user_fields()).unwrap();
    assert_eq!(u.fields().len(), 17);
    assert_eq!(read(&u, "name").chars().count(), 16);
    assert!(read(&u, "email").contains('@'));
    let age: u64 = read(&u, "age").parse().unwrap();
    assert!(age < 1000);
    let b = read(&u, "is_poros");
    assert!(b == "0" || b == "1");
    assert!(read(&u, "height").ends_with(".0"));
    let dogs: i64 = read(&u, "dogs_count").parse().unwrap();
    assert!((0..1000).contains(&dogs));
    assert_eq!(read(&u, "birthday").len(), BIRTHDAY.len());
    let enum_field = u.field_by_name("enum_field");
    assert!(u.get_value(&enum_field).is_err());
}

fn test_fields() -> Vec<Field> {
    let p = "Test";
    vec![
        Field::new("id", Type::Integer, "usize", p),
        Field::new("name", Type::Text, "String", p),
        Field::new("birthday", Type::Date, "DateTime", p),
        Field::new("age", Type::Integer, "usize", p),
        Field::new("custom_id", Type::Integer, "usize", p),
        Field::new("cash", Type::Decimal, "Decimal", p),
        Field::new("is_poros", Type::Bool, "bool", p),
        Field::new("height", Type::Float, "f64", p),
    ]
}

fn copy_record(r: &Record) -> Record {
    let mut c = Record::new("Test", test_fields()).unwrap();
    for f in test_fields() {
        let v = r.get_value(&f).unwrap();
        c.set_value(&f, Some(&v)).unwrap();
    }
    c
}

#[test]
fn reflected_eq() {
    let user_1 = reflected::random::random("Test", test_fields()).unwrap();
    let mut user_2 = copy_record(&user_1);

    assert!(user_1.reflected_eq(&user_2));

    let h: f64 = read(&user_2, "height").parse().unwrap();
    let h2 = format!("{}", h + 0.0001);
    put(&mut user_2, "height", Some(&h2));
    assert_ne!(read(&user_1, "height"), read(&user_2, "height"));

    assert!(user_1.reflected_eq(&user_2));
}

#[test]
fn reflected_eq_reports_other_fields() {
    let mut a = Record::new("Test", test_fields()).unwrap();
    put(&mut a, "name", Some("peter"));
    put(&mut a, "height", Some("6.45"));
    let mut b = copy_record(&a);
    put(&mut b, "name", Some("parker"));
    assert!(!a.reflected_eq(&b));
    let d = a.differences(&b);
    assert_eq!(d.len(), 1);
    assert_eq!(d[0].name, "name");
    assert_eq!(d[0].left, "peter");
    assert_eq!(d[0].right, "parker");

    let mut c = copy_record(&a);
    put(&mut c, "height", Some("6.452"));
    assert!(!a.reflected_eq(&c));
    assert_eq!(a.differences(&c)[0].left, "6.45");
    assert_eq!(a.differences(&c)[0].right, "6.452");
}

fn data() -> Record {
    let p = "Data";
    Record::new(
        "Data",
        vec![Field::new("float32", Type::Float, "f32", p), Field::new("float64", Type::Float, "f64", p)],
    )
    .unwrap()
}

#[test]
fn get_float() {
    let mut data = data();
    put(&mut data, "float32", Some("5.0"));
    put(&mut data, "float64", Some("1.0"));

    assert_eq!(read(&data, "float32"), "5.0");
    assert_eq!(read(&data, "float64"), "1.0");

    put(&mut data, "float32", Some("0.42332"));
    put(&mut data, "float64", Some("0.438297489"));

    assert_eq!(read(&data, "float32"), "0.42332");
    assert_eq!(read(&data, "float64"), "0.438297489");
}

#[test]
fn float_canonical_form() {
    assert_eq!(FloatValue { mantissa: 5, scale: 0 }.to_reflected_string(), "5.0");
    assert_eq!(FloatValue { mantissa: 42332, scale: 5 }.to_reflected_string(), "0.42332");
    assert_eq!(FloatValue { mantissa: -1205, scale: 2 }.to_reflected_string(), "-12.05");
    assert_eq!(FloatValue { mantissa: 0, scale: 0 }.to_reflected_string(), "0.0");
    let f: FloatValue = "2.500".to_reflected_val().unwrap();
    assert_eq!(f, FloatValue { mantissa: 25, scale: 1 });
    let g: FloatValue = "-7".to_reflected_val().unwrap();
    assert_eq!(g, FloatValue { mantissa: -7, scale: 0 });
    let bad: Result<FloatValue, String> = "abc".to_reflected_val();
    assert!(bad.is_err());
}

#[test]
fn optional_transparency() {
    let t = Type::Integer.to_optional();
    assert!(t.is_integer());
    assert!(t.is_optional());
    assert!(t.is_number());
    assert!(!t.is_float());
    assert_eq!(t.get_optional(), Some(OptionalType::Integer));
    assert_eq!(OptionalType::Integer.to_non_optional(), Type::Integer);
    assert_eq!(OptionalType::from_type(&Type::Bool), OptionalType::Bool);
    assert_eq!(Type::Text.get_optional(), None);
    assert!(!Type::Enum.is_optional());
    assert!(Type::Enum.is_enum());
}

#[test]
fn bool_codec() {
    let mut u = new_user();
    put(&mut u, "is_poros", Some("1"));
    assert_eq!(read(&u, "is_poros"), "1");
    let f = u.field_by_name("is_poros");
    for bad in ["true", "2", "", "01", " 1"] {
        let r = u.set_value(&f, Some(bad));
        assert_eq!(r, Err(ReflectError::Decode { tp: Type::Bool, input: bad.to_string() }));
    }
    assert_eq!(read(&u, "is_poros"), "1");
}

#[test]
fn duration_codec() {
    assert_eq!(DurationValue { secs: 200, nanos: 0 }.to_reflected_string(), "200");
    assert_eq!(DurationValue { secs: 1, nanos: 500_000_000 }.to_reflected_string(), "1");
    assert_eq!(DurationValue { secs: -2, nanos: 500_000_000 }.to_reflected_string(), "-1");
    let mut u = new_user();
    put(&mut u, "spent_eating_hotdogs", Some("555"));
    assert_eq!(read(&u, "spent_eating_hotdogs"), "555");
    let f = u.field_by_name("spent_eating_hotdogs");
    assert!(u.set_value(&f, Some("1.5")).is_err());
    assert!(u.set_value(&f, Some("9223372036854776")).is_err());
    assert!(u.set_value(&f, Some("9223372036854775")).is_ok());
    assert!(u.set_value(&f, Some("-9223372036854775")).is_ok());
}

#[test]
fn schema_integrity() {
    let u = new_user();
    let names: Vec<String> = u.fields().iter().map(|f| f.name.clone()).collect();
    for (i, a) in names.iter().enumerate() {
        for b in names.iter().skip(i + 1) {
            assert_ne!(a, b);
        }
    }
    assert!(u.field_by_name("id").is_id());
    let mut dup = user_fields();
    dup.push(Field::new("name", Type::Text, "String", "User"));
    assert!(Record::new("User", dup).is_none());
    assert!(Record::new("Other", user_fields()).is_none());
}

#[test]
fn end_to_end() {
    let mut u = new_user();
    put(&mut u, "id", Some("0"));
    put(&mut u, "name", Some("peter"));
    put(&mut u, "height", Some("6.45"));
    put(&mut u, "dogs_count", Some("5"));
    assert_eq!(read(&u, "height"), "6.45");
    put(&mut u, "height", Some("5.467"));
    assert_eq!(read(&u, "height"), "5.467");
    put(&mut u, "dogs_count", Some("17"));
    assert_eq!(read(&u, "dogs_count"), "17");
    assert_eq!(u.value_by_name("dogs_count").unwrap(), "17");
    assert_eq!(u.record_name(), "User");
}

#[test]
fn integer_ranges() {
    let mut u = new_user();
    let dogs = u.field_by_name("dogs_count");
    assert!(u.set_value(&dogs, Some("70000")).is_err());
    assert!(u.set_value(&dogs, Some("-32768")).is_ok());
    assert_eq!(read(&u, "dogs_count"), "-32768");
    assert!(u.set_value(&dogs, Some("+12")).is_ok());
    assert_eq!(read(&u, "dogs_count"), "12");
    let age = u.field_by_name("age");
    assert!(u.set_value(&age, Some("-1")).is_err());
    assert!(u.set_value(&age, Some("18446744073709551615")).is_ok());
    assert_eq!(read(&u, "age"), "18446744073709551615");
    assert!(u.set_value(&age, Some("18446744073709551616")).is_err());
    assert_eq!(
        u.set_value(&age, Some("x1")),
        Err(ReflectError::Decode { tp: Type::Integer, input: "x1".to_string() })
    );
}

#[test]
fn custom_fields_are_unsupported() {
    let mut u = new_user();
    let f = u.field_by_name("enum_field");
    assert!(matches!(u.get_value(&f), Err(ReflectError::Unsupported(_))));
    assert!(matches!(u.set_value(&f, Some("A")), Err(ReflectError::Unsupported(_))));
    assert!(u.value_by_name("enum_field").is_err());
}

#[test]
fn decimal_codec() {
    assert_eq!(DecimalValue { mantissa: 10025, scale: 2 }.to_reflected_string(), "100.25");
    assert_eq!(DecimalValue { mantissa: 5, scale: 3 }.to_reflected_string(), "0.005");
    assert_eq!(DecimalValue { mantissa: -1500, scale: 3 }.to_reflected_string(), "-1.500");
    assert_eq!(DecimalValue { mantissa: 0, scale: 0 }.to_reflected_string(), "0");
    let d: DecimalValue = "100.250".to_reflected_val().unwrap();
    assert_eq!(d, DecimalValue { mantissa: 100250, scale: 3 });
    let bad: Result<DecimalValue, String> = "1.2.3".to_reflected_val();
    assert!(bad.is_err());
}

#[test]
fn convert_date() {
    let d = DateTimeValue { year: 987, month: 2, day: 29, hour: 1, minute: 2, second: 3, nanosecond: 4 };
    assert!(!d.is_valid());
    let d = DateTimeValue { year: 2024, month: 2, day: 29, hour: 1, minute: 2, second: 3, nanosecond: 4 };
    assert!(d.is_valid());
    let text = d.to_reflected_string();
    assert_eq!(text, "2024-02-29 01:02:03.000000004");
    let back: DateTimeValue = text.as_str().to_reflected_val().unwrap();
    assert_eq!(back, d);
    let whole: DateTimeValue = "2024-02-29 01:02:03".to_reflected_val().unwrap();
    assert_eq!(whole.nanosecond, 0);
    let bad: Result<DateTimeValue, String> = "2024-02-29 01:02:03.5".to_reflected_val();
    assert!(bad.is_err());
    let bad: Result<DateTimeValue, String> = "2023-02-29 01:02:03.000000000".to_reflected_val();
    assert!(bad.is_err());
}

#[test]
fn round_trip_each_kind() {
    let cases: Vec<(Type, &str, &str)> = vec![
        (Type::Float, "f64", "-3.25"),
        (Type::Integer, "i8", "-128"),
        (Type::Text, "String", "hello world"),
        (Type::Date, "DateTime", "1999-12-31 23:59:59.999999999"),
        (Type::DateTime, "DateTime", "0001-01-01 00:00:00.000000000"),
        (Type::Decimal, "Decimal", "-0.0100"),
        (Type::Bool, "bool", "0"),
        (Type::Duration, "Duration", "-42"),
    ];
    for (tp, decl, text) in cases {
        let v: Value = decode_value(tp, decl, text).unwrap();
        assert_eq!(encode_value(&v), text);
        assert_eq!(v.to_reflected_string(), text);
    }
}

#[test]
fn record_errors_leave_value() {
    let mut u = peter();
    let h = u.field_by_name("height");
    assert!(u.set_value(&h, Some("six")).is_err());
    assert_eq!(read(&u, "height"), "6.45");
    let n: i128 = "-17".to_reflected_val().unwrap();
    assert_eq!(n, -17);
    assert_eq!(n.to_reflected_string(), "-17");
    let s: String = "abc".to_reflected_val().unwrap();
    assert_eq!(s, "abc");
    let none: Option<Value> = None;
    assert_eq!(none.to_reflected_string(), "NULL");
}

#[test]
fn declared_kinds() {
    assert_eq!(kind_of_declared("f32"), Type::Float);
    assert_eq!(kind_of_declared("i16"), Type::Integer);
    assert_eq!(kind_of_declared("usize"), Type::Integer);
    assert_eq!(kind_of_declared("String"), Type::Text);
    assert_eq!(kind_of_declared("NaiveDateTime"), Type::Date);
    assert_eq!(kind_of_declared("Decimal"), Type::Decimal);
    assert_eq!(kind_of_declared("bool"), Type::Bool);
    assert_eq!(kind_of_declared("Duration"), Type::Duration);
    assert_eq!(kind_of_declared("SomeEnum"), Type::Enum);
    let f = Field::declared("usize_opt", "usize", true, "User");
    assert_eq!(f.tp, Type::Optional(OptionalType::Integer));
    assert!(f.optional);
    assert!(f == Field::new("usize_opt", Type::Integer.to_optional(), "usize", "User"));
    assert!(f != Field::new("usize_opt", Type::Integer, "usize", "User"));
    assert!(!Field::declared("height", "f64", false, "User").optional);
}

#[test]
fn bind_order_skips_key_custom_and_usize() {
    let u = new_user();
    let names: Vec<String> = u.bind_order().iter().map(|&i| u.fields()[i].name.clone()).collect();
    assert_eq!(
        names,
        vec![
            "name", "email", "birthday", "cash", "sercli_cash", "is_poros", "height", "dogs_count",
            "spent_eating_hotdogs", "str_opt", "bool_opt", "decimal_opt",
        ]
    );
}

#[test]
fn simple_and_foreign_fields() {
    let u = new_user();
    assert!(!u.field_by_name("id").is_simple());
    assert!(!u.field_by_name("custom_id").is_simple());
    assert!(!u.field_by_name("enum_field").is_simple());
    assert!(u.field_by_name("enum_field").is_custom());
    assert!(u.field_by_name("name").is_simple());
    assert!(!u.field_by_name("name").is_foreign_id());
    assert!(u.field_by_name("height").is_number());
    assert!(u.field_by_name("str_opt").non_optional().tp == Type::Text);
}

#[test]
fn store_in_map() {
    let field = Field::new("", Type::Float, "", "");
    let mut map = std::collections::HashMap::<Field, String>::default();
    map.insert(field.copy(), String::new());
    assert!(map.contains_key(&field));
}

#[test]
fn debug() {
    let field = Field::new("Name", Type::Float, "f32", "SomeStruct");
    let text = format!("{:?}", field);
    assert!(text.contains("Name"));
    assert!(text.contains("f32"));
    assert!(text.contains("SomeStruct"));
}

#[test]
fn read_errors_name_type_and_input() {
    let r: Result<FloatValue, String> = "abc".to_reflected_val();
    assert_eq!(r, Err("Failed to parse float from: abc".to_string()));
    let big: Result<i128, String> = "18446744073709551616".to_reflected_val();
    assert_eq!(big, Err("Failed to parse integer from: 18446744073709551616".to_string()));
    let top: i128 = "18446744073709551615".to_reflected_val().unwrap();
    assert_eq!(top, 18446744073709551615);
    let low: Result<i128, String> = "-9223372036854775809".to_reflected_val();
    assert!(low.is_err());
    let d: Result<DurationValue, String> = "1.5".to_reflected_val();
    assert_eq!(d, Err("Failed to parse duration from: 1.5".to_string()));
    let t: Result<DateTimeValue, String> = "yesterday".to_reflected_val();
    assert_eq!(t, Err("Failed to parse date and time from: yesterday".to_string()));
    let m: Result<DecimalValue, String> = "1.2.3".to_reflected_val();
    assert_eq!(m, Err("Failed to parse decimal from: 1.2.3".to_string()));
}

#[test]
fn decimal_widest_round_trip() {
    for d in [
        DecimalValue { mantissa: 79228162514264337593543950335, scale: 28 },
        DecimalValue { mantissa: -79228162514264337593543950335, scale: 0 },
        DecimalValue { mantissa: 1, scale: 28 },
    ] {
        let t = d.to_reflected_string();
        let back: DecimalValue = t.as_str().to_reflected_val().unwrap();
        assert_eq!(back, d);
        assert_eq!(back.to_reflected_string(), t);
    }
    assert_eq!(
        DecimalValue { mantissa: 79228162514264337593543950335, scale: 28 }.to_reflected_string(),
        "7.9228162514264337593543950335"
    );
}

#[test]
fn float_literal_limits() {
    for bad in ["1e3", "inf", "NaN", "1234567890123456789", "0.0000000000000000001", ".", "-", ""] {
        let r: Result<FloatValue, String> = bad.to_reflected_val();
        assert!(r.is_err(), "{}", bad);
    }
    let f: FloatValue = "123456789012345678".to_reflected_val().unwrap();
    assert_eq!(f.to_reflected_string(), "123456789012345678.0");
    let g: FloatValue = ".5".to_reflected_val().unwrap();
    assert_eq!(g.to_reflected_string(), "0.5");
}
