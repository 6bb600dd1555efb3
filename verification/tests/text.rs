use growthbook_sdk::add;
use growthbook_sdk::number::{bits_are_nan, double_equal, double_less, Number};
use growthbook_sdk::text::{
    bytes_eq, chars_eq, chars_less, chars_of, decimal_of_i64, decimal_of_u64, decimal_string,
    parse_i32, str_eq,
};
use growthbook_sdk::value::{value_eq, Value};

fn chars(s: &str) -> Vec<char> {
    s.chars().collect()
}

#[test]
fn add_adds() {
    assert_eq!(add(2, 2), 4);
    assert_eq!(add(0, usize::MAX), usize::MAX);
}

#[test]
fn texts_are_equal_by_their_characters() {
    assert!(str_eq("", ""));
    assert!(str_eq("abc", "abc"));
    assert!(!str_eq("abc", "abd"));
    assert!(!str_eq("abc", "ab"));
    assert!(str_eq("\u{e9}t\u{e9}", "\u{e9}t\u{e9}"));
    assert!(!str_eq("\u{e9}", "e"));
    assert!(bytes_eq(b"ab", b"ab"));
    assert!(!bytes_eq(b"ab", b"ba"));
    assert!(chars_eq(&chars("ab"), &chars("ab")));
    assert!(!chars_eq(&chars("ab"), &chars("abc")));
    assert_eq!(chars_of("h\u{e9}\u{1f600}!"), vec!['h', '\u{e9}', '\u{1f600}', '!']);
    assert_eq!(chars_of(""), Vec::<char>::new());
}

#[test]
fn texts_are_ordered_as_strings_are() {
    let samples = [
        "", "a", "A", "ab", "abc", "abd", "b", "something", "SOMETHING", "\u{e9}", "z\u{e9}",
        "\u{1f600}", "\u{ffff}", "00001", "0001", "~", "-",
    ];
    for a in samples {
        for b in samples {
            assert_eq!(chars_less(&chars(a), &chars(b)), a < b, "{:?} < {:?}", a, b);
        }
    }
}

#[test]
fn numerals_are_those_of_the_standard_library() {
    for n in [0u64, 1, 9, 10, 11, 99, 100, 12345, 4294967295, u64::MAX] {
        assert_eq!(decimal_of_u64(n), n.to_string().into_bytes());
    }
    for i in [0i64, 1, -1, 10, -10, 2147483647, -2147483648, i64::MAX, i64::MIN] {
        assert_eq!(decimal_of_i64(i), i.to_string().into_bytes());
        assert_eq!(decimal_string(i), i.to_string());
    }
}

#[test]
fn integers_are_read_as_the_standard_library_reads_them() {
    let samples = [
        "", "0", "1", "-1", "+1", "-", "+", "--1", "+-1", "1-", "007", "-007", "+0", "-0", " 1",
        "1 ", "1.0", "1e3", "a", "12a", "2147483647", "2147483648", "-2147483648", "-2147483649",
        "+2147483647", "+2147483648", "99999999999999999999", "-99999999999999999999",
        "00000000000000000000000001", "\u{0661}", "1\u{0661}", "0x10", "١٢٣",
    ];
    for s in samples {
        assert_eq!(parse_i32(&chars(s)), s.parse::<i32>().ok(), "{:?}", s);
    }
}

#[test]
fn doubles_are_ordered_by_their_bits() {
    let samples = [
        0.0f64,
        -0.0,
        1.0,
        -1.0,
        0.5,
        -0.5,
        45.67,
        f64::MIN_POSITIVE,
        -f64::MIN_POSITIVE,
        5e-324,
        f64::MAX,
        f64::MIN,
        f64::INFINITY,
        f64::NEG_INFINITY,
        f64::NAN,
        -f64::NAN,
        1e300,
        -2.5e-10,
    ];
    for a in samples {
        assert_eq!(bits_are_nan(a.to_bits()), a.is_nan());
        for b in samples {
            assert_eq!(double_less(a.to_bits(), b.to_bits()), a < b, "{} < {}", a, b);
            assert_eq!(double_equal(a.to_bits(), b.to_bits()), a == b, "{} == {}", a, b);
        }
    }
}

#[test]
fn numbers_are_equal_within_their_kind() {
    let one = Number::PosInt(1);
    assert!(one == Number::PosInt(1));
    assert!(one != Number::PosInt(2));
    assert!(one == Number::Float(1.0f64.to_bits()));
    assert!(one != Number::Float(1.5f64.to_bits()));
    assert!(Number::NegInt(-1) == Number::NegInt(-1));
    assert!(Number::NegInt(-1) == Number::Float((-1.0f64).to_bits()));
    assert!(Number::NegInt(-1) != one);
    assert!(Number::PosInt(0) == Number::Float((-0.0f64).to_bits()));
    assert!(Number::Float(0.0f64.to_bits()) == Number::Float((-0.0f64).to_bits()));
    assert!(Number::Float(f64::NAN.to_bits()) != Number::Float(f64::NAN.to_bits()));
    // beyond 53 bits an integer is the double nearest to it
    assert!(Number::PosInt((1 << 53) + 1) == Number::PosInt(1 << 53));
    assert!(Number::PosInt((1 << 53) + 2) != Number::PosInt(1 << 53));
    assert!(Number::PosInt(u64::MAX) == Number::Float(18446744073709551616.0f64.to_bits()));
    assert_eq!(Number::PosInt(7).as_i64(), Some(7));
    assert_eq!(Number::PosInt(u64::MAX).as_i64(), None);
    assert_eq!(Number::PosInt(i64::MAX as u64).as_i64(), Some(i64::MAX));
    assert_eq!(Number::NegInt(-7).as_i64(), Some(-7));
    assert_eq!(Number::Float(7.0f64.to_bits()).as_i64(), None);
    assert!(Number::PosInt(0).is_zero_value());
    assert!(Number::Float((-0.0f64).to_bits()).is_zero_value());
    assert!(!Number::Float(f64::NAN.to_bits()).is_zero_value());
    assert!(!Number::NegInt(-1).is_zero_value());
    assert_eq!(Number::PosInt(3).to_double(), 3.0f64.to_bits());
    assert_eq!(Number::NegInt(-3).to_double(), (-3.0f64).to_bits());
}

fn text(s: &str) -> Value {
    Value::String(s.to_string())
}

fn object(entries: Vec<(&str, Value)>) -> Value {
    Value::Object(entries.into_iter().map(|(k, v)| (k.to_string(), v)).collect())
}

#[test]
fn values_are_equal_by_their_structure() {
    let a = object(vec![
        ("name", text("x")),
        ("tags", Value::Array(vec![text("a"), Value::Null, Value::Bool(true)])),
        ("n", Value::Number(Number::PosInt(1))),
    ]);
    let reordered = object(vec![
        ("n", Value::Number(Number::PosInt(1))),
        ("name", text("x")),
        ("tags", Value::Array(vec![text("a"), Value::Null, Value::Bool(true)])),
    ]);
    let other = object(vec![
        ("name", text("x")),
        ("tags", Value::Array(vec![Value::Null, text("a"), Value::Bool(true)])),
        ("n", Value::Number(Number::PosInt(1))),
    ]);
    assert!(value_eq(&a, &a.clone()));
    assert_eq!(a, reordered);
    assert_ne!(a, other);
    assert_ne!(a, object(vec![("name", text("x"))]));
    assert_ne!(Value::Null, Value::Bool(false));
    assert_ne!(text("1"), Value::Number(Number::PosInt(1)));
    assert_eq!(Value::Number(Number::PosInt(1)), Value::Number(Number::Float(1.0f64.to_bits())));
    assert_eq!(
        Value::Array(vec![Value::Number(Number::NegInt(-2))]),
        Value::Array(vec![Value::Number(Number::Float((-2.0f64).to_bits()))])
    );
    assert_ne!(Value::Array(vec![]), object(vec![]));
    assert_eq!(Value::Array(vec![]), Value::Array(vec![]));
    assert_ne!(Value::Array(vec![Value::Null]), Value::Array(vec![]));
}

#[test]
fn values_are_looked_up_by_key() {
    let v = object(vec![("a", text("first")), ("b", Value::Null), ("a", text("second"))]);
    assert_eq!(v.get("a"), Some(&text("first")));
    assert_eq!(v.get("b"), Some(&Value::Null));
    assert_eq!(v.get("c"), None);
    assert_eq!(v.get(""), None);
    assert_eq!(v.get_chars(&chars("a")), Some(&text("first")));
    assert_eq!(v.get_chars(&chars("ab")), None);
    assert_eq!(Value::Array(vec![text("a")]).get("0"), None);
    assert_eq!(text("a").get("a"), None);
    assert!(Value::Null.is_null());
    assert!(!text("").is_null());
    assert_eq!(text("s").as_str(), Some("s"));
    assert_eq!(Value::Null.as_str(), None);
    assert_eq!(Value::Bool(true).as_bool(), Some(true));
    assert_eq!(text("true").as_bool(), None);
    assert_eq!(Value::Number(Number::NegInt(-2)).as_i64(), Some(-2));
    assert_eq!(text("2").as_i64(), None);
    assert_eq!(Value::Array(vec![Value::Null]).as_array(), Some(&vec![Value::Null]));
    assert_eq!(v.as_array(), None);
    for (value, on) in [
        (Value::Null, false),
        (Value::Bool(false), false),
        (Value::Bool(true), true),
        (text(""), false),
        (text("0"), true),
        (Value::Number(Number::PosInt(0)), false),
        (Value::Number(Number::NegInt(-1)), true),
        (Value::Array(vec![]), true),
        (object(vec![]), true),
    ] {
        assert_eq!(value.is_truthy(), on, "{:?}", value);
    }
}
