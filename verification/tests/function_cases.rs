#![allow(unused_imports, dead_code)]

use cel::{Context, Program, Value};
use kube_cel::duration::parse_go_duration;
use kube_cel::model::{CelKey, CelValue, FunctionError};
use kube_cel::quantity::{parse_quantity, parse_trimmed_quantity, KubeQuantity};
use kube_cel::register_all;
use std::sync::Arc;
use kube_cel::strings::{char_at, string_index_of, string_last_index_of, substring};
use kube_cel::lists::{
        distinct, flatten, is_sorted, list_index_of, list_last_index_of, list_max, list_min,
        list_reverse, slice, sum,
    };
use kube_cel::sets::{sets_contains, sets_equivalent, sets_intersects};
use kube_cel::format::format_string;
use kube_cel::semver_funcs::normalize;
use kube_cel::ip::{parse_cidr_net, parse_ip_addr, KubeCIDR, KubeIP};
use kube_cel::engine::{kind_text_of, to_cel};

fn run(expr: &str) -> Result<Value, cel::ExecutionError> {
    let mut ctx = Context::default();
    register_all(&mut ctx);
    Program::compile(expr).unwrap().execute(&ctx)
}

fn eval(expr: &str) -> Value {
    run(expr).unwrap()
}

fn text(s: &str) -> Value {
    Value::String(Arc::new(s.to_string()))
}

fn failure(expr: &str) -> String {
    run(expr).unwrap_err().to_string()
}

fn s(v: &str) -> CelValue {
    CelValue::String(v.to_string())
}

fn error(function: &str, message: &str) -> FunctionError {
    FunctionError { function: function.to_string(), message: message.to_string() }
}

// ── Durations ───────────────────────────────────────────────────────

#[test]
fn duration_table() {
    assert_eq!(parse_go_duration("1h30m"), Some(5_400_000_000_000));
    assert_eq!(parse_go_duration("-30s"), Some(-30_000_000_000));
    assert_eq!(parse_go_duration("0"), Some(0));
    assert_eq!(parse_go_duration("-0"), Some(0));
    assert_eq!(parse_go_duration("abc"), None);
    assert_eq!(parse_go_duration(""), None);
    assert_eq!(parse_go_duration("h"), None);
    assert_eq!(parse_go_duration("-"), None);
    assert_eq!(parse_go_duration("15"), None);
    assert_eq!(parse_go_duration("1h "), None);
    assert_eq!(parse_go_duration("1d"), None);
    assert_eq!(parse_go_duration("+1h"), None);
}

#[test]
fn duration_units_and_fractions() {
    assert_eq!(parse_go_duration("1ns"), Some(1));
    assert_eq!(parse_go_duration("1us"), Some(1_000));
    assert_eq!(parse_go_duration("1ms"), Some(1_000_000));
    assert_eq!(parse_go_duration("1s"), Some(1_000_000_000));
    assert_eq!(parse_go_duration("1m"), Some(60_000_000_000));
    assert_eq!(parse_go_duration("1h"), Some(3_600_000_000_000));
    assert_eq!(parse_go_duration("1m1ms1s"), Some(61_001_000_000));
    assert_eq!(parse_go_duration("1.5h"), Some(5_400_000_000_000));
    assert_eq!(parse_go_duration(".5s"), Some(500_000_000));
    assert_eq!(parse_go_duration("5.s"), Some(5_000_000_000));
    assert_eq!(parse_go_duration("0.000000001s"), Some(1));
    assert_eq!(parse_go_duration("0.0000000019s"), Some(1));
    assert_eq!(parse_go_duration("1.9ns"), Some(1));
    assert_eq!(parse_go_duration("0.3s"), Some(300_000_000));
    assert_eq!(parse_go_duration("0.1h0.1m"), Some(366_000_000_000));
    assert_eq!(parse_go_duration(".s"), None);
    assert_eq!(parse_go_duration("1.2.3s"), None);
    assert_eq!(parse_go_duration("1..s"), None);
    assert_eq!(parse_go_duration("007s"), Some(7_000_000_000));
}

#[test]
fn duration_limits() {
    assert_eq!(parse_go_duration("9223372036854775807ns"), Some(i64::MAX));
    assert_eq!(parse_go_duration("-9223372036854775807ns"), Some(-i64::MAX));
    assert_eq!(parse_go_duration("9223372036854775808ns"), None);
    assert_eq!(parse_go_duration("9223372036854775807ns1ns"), None);
    assert_eq!(parse_go_duration("2562047h47m16.854775807s"), Some(i64::MAX));
    assert_eq!(parse_go_duration("2562047h47m16.854775808s"), None);
    assert_eq!(parse_go_duration("99999999999999999999999999999999999999999h"), None);
    assert_eq!(
        parse_go_duration("0.00000000000000000000000000000000000000000000000001h"),
        Some(0)
    );
}

// ── Quantities ──────────────────────────────────────────────────────

#[test]
fn quantity_sum_and_order() {
    let a = parse_quantity("1Gi").unwrap();
    let b = parse_quantity("512Mi").unwrap();
    assert_eq!(a.add(&b).unwrap().as_integer(), Ok(1_610_612_736));
    assert_eq!(a.sub(&b).unwrap().as_integer(), Ok(536_870_912));
    assert_eq!(parse_quantity("1k").unwrap().compare(&parse_quantity("1000").unwrap()), 0);
    assert_eq!(parse_quantity("1k").unwrap(), parse_quantity("1000").unwrap());
    assert_eq!(parse_quantity("1k").unwrap(), parse_quantity(" 1e3 ").unwrap());
    assert_eq!(parse_quantity("999m").unwrap().compare(&parse_quantity("1").unwrap()), -1);
    assert_eq!(parse_quantity("-1").unwrap().compare(&parse_quantity("-2").unwrap()), 1);
    assert_eq!(parse_quantity("1e50").unwrap().compare(&parse_quantity("1").unwrap()), 1);
    assert_eq!(parse_quantity("-1e50").unwrap().compare(&parse_quantity("1").unwrap()), -1);
    assert_eq!(parse_quantity("1").unwrap().compare(&parse_quantity("1e-50").unwrap()), 1);
    assert_eq!(parse_quantity("0").unwrap().compare(&parse_quantity("1e-50").unwrap()), -1);
}

#[test]
fn quantity_lowest_terms() {
    let q = KubeQuantity::new(1500, 0).unwrap();
    assert_eq!((q.mantissa(), q.scale()), (15, 2));
    let q = KubeQuantity::new(0, 7).unwrap();
    assert_eq!((q.mantissa(), q.scale()), (0, 0));
    let q = KubeQuantity::new(-120, -3).unwrap();
    assert_eq!((q.mantissa(), q.scale()), (-12, -2));
    assert_eq!(KubeQuantity::new(10, i32::MAX), None);
    assert!(KubeQuantity::new(1, i32::MAX).is_some());
    let q = parse_quantity("1.50").unwrap();
    assert_eq!((q.mantissa(), q.scale()), (15, -1));
    let q = parse_quantity("1.5Ki").unwrap();
    assert_eq!((q.mantissa(), q.scale()), (1536, 0));
}

#[test]
fn quantity_suffixes() {
    let cases: [(&str, i128, i32); 17] = [
        ("7", 7, 0),
        ("7n", 7, -9),
        ("7u", 7, -6),
        ("7m", 7, -3),
        ("7k", 7, 3),
        ("7M", 7, 6),
        ("7G", 7, 9),
        ("7T", 7, 12),
        ("7P", 7, 15),
        ("7E", 7, 18),
        ("7Ki", 7168, 0),
        ("7Mi", 7340032, 0),
        ("7Gi", 7516192768, 0),
        ("7Ti", 7696581394432, 0),
        ("7Pi", 7881299347898368, 0),
        ("7Ei", 8070450532247928832, 0),
        ("7E2", 7, 2),
    ];
    for (input, mantissa, scale) in cases {
        let q = parse_quantity(input).unwrap();
        assert_eq!((q.mantissa(), q.scale()), (mantissa, scale), "{input}");
    }
}

#[test]
fn quantity_rejections() {
    for input in ["", "  ", "abc", "1x", "1.2.3", "--1", "1e", "Ki", "1 Ki", "1ki", "1e1.5", "+", "1e+"] {
        assert!(parse_quantity(input).is_err(), "{input}");
    }
    assert!(parse_quantity("170141183460469231731687303715884105727").is_ok());
    assert!(parse_quantity("170141183460469231731687303715884105728").is_err());
    assert!(parse_quantity("-170141183460469231731687303715884105728").is_ok());
    assert!(parse_quantity("170141183460469231731687303715884105727Ki").is_err());
    assert!(parse_quantity("1e2147483647").is_ok());
    assert!(parse_quantity("1e2147483648").is_err());
    assert!(parse_quantity("10e2147483647").is_err());
    assert!(parse_quantity("+1.5").is_ok());
    assert!(parse_quantity("-.5").is_ok());
}

#[test]
fn quantity_as_integer() {
    assert_eq!(parse_quantity("9223372036854775807").unwrap().as_integer(), Ok(i64::MAX));
    assert_eq!(parse_quantity("-9223372036854775808").unwrap().as_integer(), Ok(i64::MIN));
    assert_eq!(
        parse_quantity("9223372036854775808").unwrap().as_integer(),
        Err(error("asInteger", "quantity too large for integer"))
    );
    assert_eq!(
        parse_quantity("1e40").unwrap().as_integer(),
        Err(error("asInteger", "quantity too large for integer"))
    );
    assert_eq!(
        parse_quantity("1500m").unwrap().as_integer(),
        Err(error("asInteger", "quantity is not an integer"))
    );
    assert_eq!(parse_quantity("2000m").unwrap().as_integer(), Ok(2));
    assert!(parse_quantity("2000m").unwrap().is_integer());
    assert!(!parse_quantity("1m").unwrap().is_integer());
    assert_eq!(parse_quantity("-3").unwrap().sign(), -1);
}

#[test]
fn quantity_written_out() {
    assert_eq!(parse_quantity("1.5k").unwrap().to_string(), "1500");
    assert_eq!(parse_quantity("500m").unwrap().to_string(), "0.5");
    assert_eq!(parse_quantity("-5m").unwrap().to_string(), "-0.005");
    assert_eq!(parse_quantity("-12345m").unwrap().to_string(), "-12.345");
    assert_eq!(parse_quantity("0").unwrap().to_string(), "0");
    assert_eq!(parse_quantity("-7k").unwrap().to_string(), "-7000");
    assert_eq!(parse_quantity("1Ki").unwrap().to_string(), "1024");
}

#[test]
fn quantity_arithmetic_limits() {
    let big = parse_quantity("170141183460469231731687303715884105727").unwrap();
    assert_eq!(big.add(&parse_quantity("1").unwrap()), None);
    assert_eq!(parse_quantity("1e50").unwrap().add(&parse_quantity("1").unwrap()), None);
    assert_eq!(
        parse_quantity("1500m").unwrap().add(&parse_quantity("500m").unwrap()),
        Some(parse_quantity("2").unwrap())
    );
    assert_eq!(
        parse_quantity("1").unwrap().sub(&parse_quantity("1").unwrap()),
        Some(parse_quantity("0").unwrap())
    );
    assert!(failure("quantity('1e50').add(1)").contains("quantity overflow"));
    assert_eq!(eval("quantity('1k').add(quantity('1')).asInteger()"), Value::Int(1001));
    assert_eq!(eval("quantity('5').sub(7u).sign()"), Value::Int(-1));
    assert!(failure("quantity('1').add('x')").contains("expected Quantity or int, got String"));
    assert!(failure("quantity('1').add()").contains("missing argument"));
    assert!(failure("quantity('1').add(optional.none())").ends_with("expected Quantity or int"));
    assert!(failure("quantity('1').add(ip('::1'))").ends_with("expected Quantity or int"));
}

// ── Strings ─────────────────────────────────────────────────────────

#[test]
fn string_functions_on_values() {
    assert_eq!(char_at("héllo", 1), Ok(s("é")));
    assert_eq!(
        char_at("abc", 3),
        Err(error("charAt", "index 3 out of range for string of length 3"))
    );
    assert_eq!(
        char_at("abc", -1),
        Err(error("charAt", "index -1 out of range for string of length 3"))
    );
    assert_eq!(string_index_of("abcabc", &vec![s("bc")]), Ok(CelValue::Int(1)));
    assert_eq!(string_index_of("abcabc", &vec![s("bc"), CelValue::Int(2)]), Ok(CelValue::Int(4)));
    assert_eq!(string_index_of("abcabc", &vec![s("bc"), CelValue::Int(-7)]), Ok(CelValue::Int(1)));
    assert_eq!(string_index_of("abcabc", &vec![s("bc"), CelValue::Int(5)]), Ok(CelValue::Int(-1)));
    assert_eq!(string_index_of("abc", &vec![s(""), CelValue::Int(9)]), Ok(CelValue::Int(9)));
    assert_eq!(string_index_of("abc", &vec![s("abcd")]), Ok(CelValue::Int(-1)));
    assert_eq!(
        string_index_of("abc", &vec![CelValue::Int(1)]),
        Err(error("indexOf", "expected string argument"))
    );
    assert_eq!(string_last_index_of("abcabc", &vec![s("bc")]), Ok(CelValue::Int(4)));
    assert_eq!(
        string_last_index_of("abcabc", &vec![s("bc"), CelValue::Int(5)]),
        Ok(CelValue::Int(1))
    );
    assert_eq!(
        string_last_index_of("abcabc", &vec![s(""), CelValue::Int(50)]),
        Ok(CelValue::Int(6))
    );
    assert_eq!(
        string_last_index_of("abcabc", &vec![]),
        Err(error("lastIndexOf", "expected string argument"))
    );
    assert_eq!(substring("héllo", &vec![CelValue::Int(1), CelValue::Int(3)]), Ok(s("él")));
    assert_eq!(substring("hello", &vec![CelValue::Int(5)]), Ok(s("")));
    assert_eq!(
        substring("hello", &vec![CelValue::Int(6)]),
        Err(error("substring", "start index 6 out of range for string of length 5"))
    );
    assert_eq!(
        substring("hello", &vec![CelValue::Int(2), CelValue::Int(1)]),
        Err(error("substring", "end index 1 out of range"))
    );
    assert_eq!(
        substring("hello", &vec![s("1")]),
        Err(error("substring", "expected int argument"))
    );
}

#[test]
fn string_functions_in_expressions() {
    assert_eq!(eval("'Hello WORLD é'.lowerAscii()"), text("hello world é"));
    assert_eq!(eval("'Hello world é'.upperAscii()"), text("HELLO WORLD é"));
    assert_eq!(eval("'a-b-c'.replace('-', '+', 1)"), text("a+b-c"));
    assert_eq!(eval("'a-b-c'.replace('-', '+', -1)"), text("a-b-c"));
    assert_eq!(eval("'abc'.replace('', '.')"), text(".a.b.c."));
    assert_eq!(eval("'a,b,c'.split(',', 2)"), eval("['a', 'b,c']"));
    assert_eq!(eval("'a,b,c'.split(',', 0)"), eval("['a,b,c']"));
    assert_eq!(eval("''.split(',')"), eval("['']"));
    assert_eq!(eval("' \\t x y\\n'.trim()"), text("x y"));
    assert_eq!(eval("['a', 'b', 'c'].join('-')"), text("a-b-c"));
    assert_eq!(eval("['a'].join('-')"), text("a"));
    assert_eq!(eval("[].join('-')"), text(""));
    assert_eq!(eval("['a', 'b'].join()"), text("ab"));
    assert_eq!(eval("strings.quote('a\"b\\\\c\\nd\\te\\rf')"), text("\"a\\\"b\\\\c\\nd\\te\\rf\""));
    assert!(failure("'abc'.replace('a')").contains("expected string argument"));
    assert!(failure("1.indexOf(1)").contains("indexOf not supported on type Int"));
    assert!(failure("true.lastIndexOf(1)").contains("lastIndexOf not supported on type Bool"));
}

// ── Lists and sets ──────────────────────────────────────────────────

#[test]
fn list_functions_on_values() {
    let ints = |v: &[i64]| v.iter().map(|n| CelValue::Int(*n)).collect::<Vec<_>>();
    assert_eq!(is_sorted(&ints(&[1, 1, 2])), Ok(CelValue::Bool(true)));
    assert_eq!(is_sorted(&ints(&[2, 1])), Ok(CelValue::Bool(false)));
    assert_eq!(is_sorted(&vec![]), Ok(CelValue::Bool(true)));
    assert_eq!(is_sorted(&vec![s("a"), s("ab"), s("b")]), Ok(CelValue::Bool(true)));
    assert_eq!(is_sorted(&vec![s("b"), s("ab")]), Ok(CelValue::Bool(false)));
    assert_eq!(
        is_sorted(&vec![CelValue::Bool(false), CelValue::Bool(true)]),
        Ok(CelValue::Bool(true))
    );
    assert_eq!(
        is_sorted(&vec![CelValue::Int(1), s("a")]),
        Err(error("compare", "cannot compare values of different types"))
    );
    assert_eq!(is_sorted(&vec![CelValue::Int(2), CelValue::Int(1), s("a")]), Ok(CelValue::Bool(false)));
    assert_eq!(sum(&vec![]), Ok(CelValue::Int(0)));
    assert_eq!(sum(&ints(&[1, 2, 3])), Ok(CelValue::Int(6)));
    assert_eq!(sum(&vec![s("alone")]), Ok(s("alone")));
    assert_eq!(
        sum(&vec![CelValue::UInt(1), CelValue::UInt(u64::MAX)]),
        Err(error("sum", "integer overflow"))
    );
    assert_eq!(
        sum(&vec![CelValue::Int(1), CelValue::UInt(1)]),
        Err(error("sum", "cannot sum values of this type"))
    );
    assert_eq!(list_min(&ints(&[3, 1, 2, 1])), Ok(CelValue::Int(1)));
    assert_eq!(list_max(&ints(&[3, 9, 2, 9])), Ok(CelValue::Int(9)));
    assert_eq!(list_min(&vec![]), Err(error("min", "cannot call min on empty list")));
    assert_eq!(list_max(&vec![]), Err(error("max", "cannot call max on empty list")));
    assert_eq!(list_index_of(&ints(&[1, 2, 3, 2]), &ints(&[2])), Ok(CelValue::Int(1)));
    assert_eq!(list_last_index_of(&ints(&[1, 2, 3, 2]), &ints(&[2])), Ok(CelValue::Int(3)));
    assert_eq!(list_index_of(&ints(&[1]), &vec![CelValue::UInt(1)]), Ok(CelValue::Int(-1)));
    assert_eq!(list_index_of(&ints(&[1]), &vec![]), Err(error("indexOf", "expected argument")));
    assert_eq!(
        list_last_index_of(&ints(&[1]), &vec![]),
        Err(error("lastIndexOf", "expected argument"))
    );
    assert_eq!(slice(&ints(&[1, 2, 3, 4]), 1, 3), Ok(CelValue::List(ints(&[2, 3]))));
    assert_eq!(slice(&ints(&[1, 2]), 2, 2), Ok(CelValue::List(vec![])));
    assert_eq!(
        slice(&ints(&[1, 2]), 1, 3),
        Err(error("slice", "slice(1, 3) out of range for list of length 2"))
    );
    assert_eq!(
        slice(&ints(&[1, 2]), -1, 1),
        Err(error("slice", "slice(-1, 1) out of range for list of length 2"))
    );
    assert_eq!(
        flatten(&vec![
            CelValue::Int(1),
            CelValue::List(vec![CelValue::Int(2), CelValue::List(ints(&[3]))]),
            CelValue::List(vec![]),
        ]),
        Ok(CelValue::List(vec![CelValue::Int(1), CelValue::Int(2), CelValue::List(ints(&[3]))]))
    );
    assert_eq!(list_reverse(&ints(&[1, 2, 3])), Ok(CelValue::List(ints(&[3, 2, 1]))));
    assert_eq!(
        distinct(&vec![CelValue::Int(1), s("1"), CelValue::Int(1), CelValue::UInt(1), s("1")]),
        Ok(CelValue::List(vec![CelValue::Int(1), s("1"), CelValue::UInt(1)]))
    );
}

#[test]
fn floats_in_lists() {
    assert_eq!(eval("[1.5, 2.5].sum()"), Value::Float(4.0));
    assert_eq!(eval("[2.5, 1.5, 3.5].min()"), Value::Float(1.5));
    assert_eq!(eval("[2.5, 1.5, 3.5].max()"), Value::Float(3.5));
    assert_eq!(eval("[1.5, 2.5].isSorted()"), Value::Bool(true));
    assert_eq!(eval("[1.5, 2.5, 1.5].distinct()"), eval("[1.5, 2.5]"));
    assert_eq!(eval("[1.5, 2.5].indexOf(2.5)"), Value::Int(1));
    assert_eq!(eval("sets.contains([1.5, 2.5], [2.5])"), Value::Bool(true));
    assert_eq!(eval("sets.intersects([1.5], [2.5])"), Value::Bool(false));
}

#[test]
fn set_functions_on_values() {
    let ints = |v: &[i64]| v.iter().map(|n| CelValue::Int(*n)).collect::<Vec<_>>();
    assert_eq!(sets_contains(&ints(&[1, 2, 3]), &ints(&[3, 3, 1])), Ok(CelValue::Bool(true)));
    assert_eq!(sets_contains(&ints(&[1, 2]), &ints(&[3])), Ok(CelValue::Bool(false)));
    assert_eq!(sets_contains(&vec![], &vec![]), Ok(CelValue::Bool(true)));
    assert_eq!(sets_equivalent(&ints(&[1, 2, 2]), &ints(&[2, 1])), Ok(CelValue::Bool(true)));
    assert_eq!(sets_equivalent(&ints(&[1, 2]), &ints(&[1])), Ok(CelValue::Bool(false)));
    assert_eq!(sets_equivalent(&ints(&[1]), &ints(&[1, 2])), Ok(CelValue::Bool(false)));
    assert_eq!(sets_intersects(&ints(&[1, 2]), &ints(&[2, 3])), Ok(CelValue::Bool(true)));
    assert_eq!(sets_intersects(&ints(&[1]), &vec![CelValue::UInt(1)]), Ok(CelValue::Bool(false)));
    assert_eq!(sets_intersects(&vec![], &ints(&[1])), Ok(CelValue::Bool(false)));
}

// ── Formatting ──────────────────────────────────────────────────────

#[test]
fn format_verbs() {
    let list = |v: Vec<CelValue>| CelValue::List(v);
    assert_eq!(format_string("%d%%", &list(vec![CelValue::Int(-5)])), Ok(s("-5%")));
    assert_eq!(format_string("%b", &list(vec![CelValue::Int(5)])), Ok(s("101")));
    assert_eq!(
        format_string("%b", &list(vec![CelValue::Int(-1)])),
        Ok(s("1111111111111111111111111111111111111111111111111111111111111111"))
    );
    assert_eq!(format_string("%o", &list(vec![CelValue::UInt(8)])), Ok(s("10")));
    assert_eq!(format_string("%x", &list(vec![CelValue::Int(255)])), Ok(s("ff")));
    assert_eq!(format_string("%X", &list(vec![CelValue::Int(-1)])), Ok(s("FFFFFFFFFFFFFFFF")));
    assert_eq!(format_string("%x", &list(vec![s("hé")])), Ok(s("68c3a9")));
    assert_eq!(format_string("%X", &list(vec![CelValue::Bytes(vec![0, 10, 255])])), Ok(s("000AFF")));
    assert_eq!(format_string("%b", &list(vec![CelValue::Bool(true)])), Ok(s("true")));
    assert_eq!(
        format_string("%s|%s|%s|%s", &list(vec![s("a"), CelValue::Null, CelValue::Bool(false), CelValue::UInt(7)])),
        Ok(s("a|null|false|7"))
    );
    assert_eq!(
        format_string(
            "%s",
            &list(vec![CelValue::List(vec![s("a"), CelValue::Int(1), CelValue::List(vec![s("b")])])])
        ),
        Ok(s("[\"a\", 1, [\"b\"]]"))
    );
    assert_eq!(
        format_string(
            "%s",
            &list(vec![CelValue::Mapping(vec![
                (CelKey::String("k".into()), s("v")),
                (CelKey::Int(-1), CelValue::Bool(true)),
                (CelKey::Uint(2), CelValue::Null),
                (CelKey::Bool(false), CelValue::Int(3)),
            ])])
        ),
        Ok(s("{\"k\": \"v\", -1: true, 2: null, false: 3}"))
    );
    assert_eq!(
        format_string("%d", &s("not a list")),
        Err(error("format", "format() requires a list argument"))
    );
    assert_eq!(
        format_string("50%", &list(vec![])),
        Err(error("format", "format string ends with '%'"))
    );
    assert_eq!(
        format_string("%.f", &list(vec![CelValue::Int(1)])),
        Err(error("format", "invalid precision in format string"))
    );
    assert_eq!(
        format_string("%.99999999999999999999999f", &list(vec![CelValue::Int(1)])),
        Err(error("format", "invalid precision in format string"))
    );
    assert_eq!(
        format_string("%.2", &list(vec![CelValue::Int(1)])),
        Err(error("format", "format string ends after precision"))
    );
    assert_eq!(
        format_string("%d %d", &list(vec![CelValue::Int(1)])),
        Err(error("format", "not enough arguments: format requires at least 2 but got 1"))
    );
    assert_eq!(
        format_string("%q", &list(vec![CelValue::Int(1)])),
        Err(error("format", "unknown format verb '%q'"))
    );
    assert_eq!(
        format_string("%d", &list(vec![s("x")])),
        Err(error("format", "%d requires int or uint, got String"))
    );
    assert_eq!(
        format_string("%x", &list(vec![CelValue::Bool(true)])),
        Err(error("format", "%x requires int, uint, string, or bytes, got Bool"))
    );
}

#[test]
fn format_numbers() {
    assert_eq!(eval("'%f'.format([1.5])"), text("1.500000"));
    assert_eq!(eval("'%.2f'.format([3])"), text("3.00"));
    assert_eq!(eval("'%.0f'.format([2u])"), text("2"));
    assert_eq!(eval("'%.3e'.format([1234.5])"), text("1.234e3"));
    assert_eq!(eval("'%s %s'.format([2.0, 2.5])"), text("2.0 2.5"));
    assert_eq!(eval("'%.12f'.format([1.0])"), text("1.000000000000"));
    assert!(failure("'%f'.format(['x'])").contains("%f requires float, int, or uint, got String"));
    assert!(failure("'%e'.format([true])").contains("%e requires float, int, or uint, got Bool"));
    assert!(failure("'%o'.format([true])").contains("%o requires int or uint, got Bool"));
    assert!(failure("'%b'.format(['x'])").contains("%b requires int, uint, or bool, got String"));
}

// ── Versions, addresses, URLs and patterns ──────────────────────────

#[test]
fn version_text_is_completed() {
    assert_eq!(normalize("1"), "1.0.0");
    assert_eq!(normalize("v1.2"), "1.2.0");
    assert_eq!(normalize("V1.2.3"), "1.2.3");
    assert_eq!(normalize("1.2-rc.1"), "1.2.0-rc.1");
    assert_eq!(normalize("1-a-b.c"), "1.0.0-a-b.c");
    assert_eq!(normalize("1.2.3.4"), "1.2.3.4");
    assert_eq!(normalize("vv1"), "v1.0.0");
    assert_eq!(normalize(""), ".0.0");
    assert_eq!(normalize("-x"), ".0.0-x");
}

#[test]
fn versions_in_expressions() {
    assert_eq!(eval("semver('1.2.3-rc.1+build.5').patch()"), Value::Int(3));
    assert_eq!(eval("semver('v2').major()"), Value::Int(2));
    assert_eq!(eval("semver('1.7').minor()"), Value::Int(7));
    assert_eq!(eval("semver('1.0.0-alpha').isLessThan(semver('1.0.0'))"), Value::Bool(true));
    assert_eq!(eval("semver('1.0.0-alpha.2').compareTo(semver('1.0.0-alpha.10'))"), Value::Int(-1));
    assert_eq!(eval("semver('1.0.0-beta').isGreaterThan(semver('1.0.0-alpha'))"), Value::Bool(true));
    assert_eq!(eval("semver('1.0.0+a').compareTo(semver('1.0.0+b'))"), Value::Int(-1));
    assert_eq!(eval("semver('1.2.3').compareTo(semver('1.2.3'))"), Value::Int(0));
    assert_eq!(eval("semver('1.10.0').compareTo(semver('1.9.0'))"), Value::Int(1));
    assert_eq!(eval("isSemver('1.2.3.4')"), Value::Bool(false));
    assert_eq!(eval("isSemver('01.2.3')"), Value::Bool(false));
    assert!(failure("semver('x')").contains("invalid semver 'x': "));
    assert!(failure("semver('1.0.0').isGreaterThan(quantity('1'))").contains("expected Semver type"));
    assert!(failure("quantity('1').isLessThan(semver('1.0.0'))").contains("expected Quantity type"));
    assert!(failure("semver('1.0.0').compareTo()").contains("missing argument"));
    assert!(failure("'1.0.0'.compareTo('1.0.0')").contains("compareTo not supported on type String"));
    assert!(failure("1.isGreaterThan(2)").contains("isGreaterThan not supported on type Int"));
    assert!(failure("1.isLessThan(2)").contains("isLessThan not supported on type Int"));
    assert!(failure("'1'.major()").contains("expected Semver type"));
}

#[test]
fn addresses_on_values() {
    assert_eq!(parse_ip_addr("1.2.3.4"), Ok(KubeIP { v6: false, bits: 0x01020304 }));
    assert_eq!(parse_ip_addr("::1"), Ok(KubeIP { v6: true, bits: 1 }));
    assert_eq!(
        parse_ip_addr("2001:db8::ff00:42:8329"),
        Ok(KubeIP { v6: true, bits: 0x20010db8_00000000_0000ff00_00428329 })
    );
    assert_eq!(
        parse_ip_addr("::1.2.3.4"),
        Ok(KubeIP { v6: true, bits: 0x01020304 })
    );
    assert!(parse_ip_addr("01.2.3.4").is_err());
    assert!(parse_ip_addr("1.2.3.04").is_err());
    assert!(parse_ip_addr("::ffff:1.2.3.4").is_err());
    assert!(parse_ip_addr("::01").is_ok());
    assert!(parse_ip_addr("1.2.3.4/32").is_err());
    assert!(parse_ip_addr("fe80::1%eth0").is_err());
    assert!(parse_ip_addr("1.2.3").is_err());
    assert!(parse_ip_addr("").is_err());
    assert!(parse_ip_addr("10.0.0.0").is_ok());
    assert_eq!(
        parse_cidr_net("10.1.2.3/8"),
        Ok(KubeCIDR { addr: KubeIP { v6: false, bits: 0x0a010203 }, prefix_len: 8 })
    );
    assert!(parse_cidr_net("10.1.2.3/33").is_err());
    assert!(parse_cidr_net("10.1.2.3").is_err());
    assert!(parse_cidr_net("::ffff:1.2.3.4/96").is_err());
}

#[test]
fn addresses_in_expressions() {
    assert_eq!(eval("cidr('10.1.2.3/8').masked() == cidr('10.0.0.0/8')"), Value::Bool(true));
    assert_eq!(eval("cidr('10.1.2.3/0').masked() == cidr('0.0.0.0/0')"), Value::Bool(true));
    assert_eq!(eval("cidr('10.1.2.3/32').masked() == cidr('10.1.2.3/32')"), Value::Bool(true));
    assert_eq!(eval("cidr('fd00::1/8').masked() == cidr('fd00::/8')"), Value::Bool(true));
    assert_eq!(eval("cidr('0.0.0.0/0').containsIP('255.255.255.255')"), Value::Bool(true));
    assert_eq!(eval("cidr('0.0.0.0/0').containsIP('::1')"), Value::Bool(false));
    assert_eq!(eval("cidr('::/0').containsIP(ip('1.2.3.4'))"), Value::Bool(false));
    assert_eq!(eval("cidr('10.0.0.0/8').containsIP(ip('10.255.0.1'))"), Value::Bool(true));
    assert_eq!(eval("cidr('10.0.0.0/8').containsCIDR(cidr('10.0.0.0/7'))"), Value::Bool(false));
    assert_eq!(eval("cidr('10.0.0.0/8').containsCIDR('10.9.0.0/16')"), Value::Bool(true));
    assert_eq!(eval("ip('255.255.255.255').isGlobalUnicast()"), Value::Bool(false));
    assert_eq!(eval("ip('0.0.0.0').isGlobalUnicast()"), Value::Bool(false));
    assert_eq!(eval("ip('ff02::1').isGlobalUnicast()"), Value::Bool(false));
    assert_eq!(eval("ip('2001:db8::1').isGlobalUnicast()"), Value::Bool(true));
    assert_eq!(eval("ip('::1').isGlobalUnicast()"), Value::Bool(false));
    assert_eq!(eval("ip('127.255.0.1').isLoopback()"), Value::Bool(true));
    assert_eq!(eval("ip('::2').isLoopback()"), Value::Bool(false));
    assert_eq!(eval("ip('ff12::1').isLinkLocalMulticast()"), Value::Bool(true));
    assert_eq!(eval("ip('febf::1').isLinkLocalUnicast()"), Value::Bool(true));
    assert_eq!(eval("ip.isCanonical('2001:DB8::1')"), Value::Bool(false));
    assert_eq!(eval("ip.isCanonical('2001:db8::1')"), Value::Bool(true));
    assert_eq!(eval("ip.isCanonical('2001:db8:0:0:0:0:0:1')"), Value::Bool(false));
    assert_eq!(eval("ip.isCanonical('nonsense')"), Value::Bool(false));
    assert_eq!(eval("ip('1.2.3.4') == ip('1.2.3.4')"), Value::Bool(true));
    assert!(failure("ip('x')").contains("invalid IP address"));
    assert!(failure("cidr('x')").contains("invalid CIDR"));
    assert!(failure("cidr('10.0.0.0/8').containsIP(1)").contains("expected IP or string argument"));
    assert!(failure("cidr('10.0.0.0/8').containsIP(cidr('10.0.0.0/8'))").contains("expected IP or string"));
    assert!(failure("cidr('10.0.0.0/8').containsCIDR(1)").contains("expected CIDR or string argument"));
    assert!(failure("cidr('10.0.0.0/8').containsIP(optional.none())").ends_with("expected IP or string"));
    assert!(failure("cidr('10.0.0.0/8').containsCIDR(optional.none())").ends_with("expected CIDR or string"));
    assert!(failure("ip('1.2.3.4').prefixLength()").contains("expected CIDR type"));
    assert!(failure("cidr('10.0.0.0/8').family()").contains("expected IP type"));
}

#[test]
fn urls_in_expressions() {
    assert_eq!(eval("url('https://user@example.com:8443/a%20b?x=1&y=2&x=3#frag').getHost()"), text("example.com:8443"));
    assert_eq!(eval("url('https://example.com:8443/a%20b').getHostname()"), text("example.com"));
    assert_eq!(eval("url('https://example.com:8443/a%20b').getPort()"), text("8443"));
    assert_eq!(eval("url('https://example.com/a%20b').getPort()"), text(""));
    assert_eq!(eval("url('https://example.com/a%20b').getEscapedPath()"), text("/a%20b"));
    assert_eq!(eval("url('https://[::1]:80/').getHostname()"), text("::1"));
    assert_eq!(eval("url('https://[::1]:80/').getHost()"), text("[::1]:80"));
    assert_eq!(eval("url('/just/a/path').getScheme()"), text(""));
    assert_eq!(eval("url('/just/a/path').getEscapedPath()"), text("/just/a/path"));
    assert_eq!(eval("url('ftp://example.com').getScheme()"), text("ftp"));
    assert_eq!(
        eval("url('https://example.com/?x=1&y=2&x=3&z').getQuery()"),
        eval("{'x': ['1', '3'], 'y': ['2'], 'z': ['']}")
    );
    assert_eq!(eval("url('https://example.com/').getQuery()"), eval("{}"));
    assert_eq!(eval("url('https://example.com/a') == url('https://example.com/a')"), Value::Bool(true));
    assert!(failure("url('::')").contains("invalid URL: "));
    assert!(failure("'x'.getHost()").contains("expected URL type"));
}

#[test]
fn patterns_in_expressions() {
    assert_eq!(eval("'abc 123 def 45'.find('[0-9]+')"), text("123"));
    assert_eq!(eval("'abc'.find('[0-9]+')"), text(""));
    assert_eq!(eval("'a1b22c333'.findAll('[0-9]+')"), eval("['1', '22', '333']"));
    assert_eq!(eval("'a1b22c333'.findAll('[0-9]+', 2)"), eval("['1', '22']"));
    assert_eq!(eval("'a1b22c333'.findAll('[0-9]+', 0)"), eval("[]"));
    assert_eq!(eval("'a1b22c333'.findAll('[0-9]+', -1)"), eval("['1', '22', '333']"));
    assert_eq!(eval("'a1b22c333'.findAll('[0-9]+', 9)"), eval("['1', '22', '333']"));
    assert!(failure("'x'.find('(')").contains("invalid regex: "));
    assert!(failure("'x'.findAll('(')").contains("invalid regex: "));
    assert!(failure("'x'.findAll(1)").contains("expected string pattern"));
}

#[test]
fn values_reach_the_engine() {
    let value = CelValue::List(vec![
        CelValue::Null,
        CelValue::Bool(true),
        CelValue::Int(-1),
        CelValue::UInt(1),
        s("x"),
        CelValue::Bytes(vec![1, 2]),
        CelValue::Mapping(vec![(CelKey::String("k".into()), CelValue::Int(1))]),
    ]);
    assert_eq!(to_cel(&value), eval("[null, true, -1, 1u, 'x', b'\\x01\\x02', {'k': 1}]"));
    assert_eq!(
        to_cel(&CelValue::Quantity(parse_quantity("1k").unwrap())),
        eval("quantity('1000')")
    );
    assert_eq!(to_cel(&CelValue::Ip(parse_ip_addr("::1").unwrap())), eval("ip('0::1')"));
    assert_eq!(
        to_cel(&CelValue::Cidr(parse_cidr_net("::1/128").unwrap())),
        eval("cidr('::1/128')")
    );
    let instant = CelValue::Timestamp { seconds: 1704132245, nanos: 500_000_000, offset: -3600 };
    assert_eq!(
        to_cel(&instant),
        Value::Timestamp(chrono::DateTime::parse_from_rfc3339("2024-01-01T17:04:05.5-01:00").unwrap())
    );
    assert_eq!(
        to_cel(&CelValue::Duration(-1_500_000_000)),
        Value::Duration(chrono::Duration::milliseconds(-1500))
    );
    assert_eq!(to_cel(&CelValue::Float(Value::Float(1.5))), Value::Float(1.5));
}

#[test]
fn kinds_are_named_as_the_engine_names_them() {
    let values = vec![
        (CelValue::Null, "Null"),
        (CelValue::Bool(true), "Bool"),
        (CelValue::Int(1), "Int"),
        (CelValue::UInt(1), "UInt"),
        (CelValue::Float(Value::Float(1.5)), "Float"),
        (CelValue::JsonFloat(serde_json::Number::from_f64(1.5).unwrap()), "Float"),
        (s("x"), "String"),
        (CelValue::Bytes(vec![1]), "Bytes"),
        (CelValue::Duration(1), "Duration"),
        (CelValue::Timestamp { seconds: 0, nanos: 0, offset: 0 }, "Timestamp"),
        (CelValue::List(vec![]), "List"),
        (CelValue::Mapping(vec![]), "Map"),
        (CelValue::Quantity(parse_quantity("1").unwrap()), "Opaque"),
        (CelValue::Ip(parse_ip_addr("::1").unwrap()), "Opaque"),
        (CelValue::Cidr(parse_cidr_net("::1/128").unwrap()), "Opaque"),
        (CelValue::Other(eval("optional.none()")), "Opaque"),
        (CelValue::Other(Value::Duration(chrono::Duration::seconds(1))), "Duration"),
    ];
    for (value, name) in values {
        assert_eq!(kind_text_of(&value), name);
        assert_eq!(kind_text_of(&value), format!("{:?}", to_cel(&value).type_of()));
    }
    assert_eq!(kind_text_of(&to_model_of("semver('1.2.3')")), "Opaque");
    assert_eq!(kind_text_of(&to_model_of("url('https://example.com')")), "Opaque");
}

fn to_model_of(expr: &str) -> CelValue {
    CelValue::Other(eval(expr))
}

#[test]
fn opaque_kinds_have_their_names() {
    let named = |value: &CelValue| format!("{:?}", to_cel(value));
    assert!(named(&CelValue::Quantity(parse_quantity("1").unwrap()))
        .starts_with("Opaque<kubernetes.Quantity>"));
    assert!(named(&CelValue::Ip(parse_ip_addr("::1").unwrap())).starts_with("Opaque<net.IP>"));
    assert!(named(&CelValue::Cidr(parse_cidr_net("::1/128").unwrap()))
        .starts_with("Opaque<net.CIDR>"));
    assert!(format!("{:?}", eval("semver('1.2.3')")).starts_with("Opaque<kubernetes.Semver>"));
    assert!(format!("{:?}", eval("url('https://example.com')"))
        .starts_with("Opaque<kubernetes.URL>"));
}

#[test]
fn every_function_stands_under_its_name() {
    let names = [
        "charAt", "lowerAscii", "upperAscii", "replace", "split", "substring", "trim", "join",
        "strings.quote", "isSorted", "sum", "min", "max", "slice", "flatten", "reverse",
        "distinct", "sets.contains", "sets.equivalent", "sets.intersects", "find", "findAll",
        "url", "isURL", "getScheme", "getHost", "getHostname", "getPort", "getEscapedPath",
        "getQuery", "ip", "isIP", "ip.isCanonical", "family", "isLoopback", "isUnspecified",
        "isLinkLocalMulticast", "isLinkLocalUnicast", "isGlobalUnicast", "cidr", "isCIDR",
        "containsIP", "containsCIDR", "prefixLength", "masked", "semver", "isSemver", "major",
        "minor", "patch", "format", "quantity", "isQuantity", "isInteger", "asInteger",
        "asApproximateFloat", "sign", "indexOf", "lastIndexOf", "isGreaterThan", "isLessThan",
        "compareTo", "add", "sub",
    ];
    let builtin = ["min", "max"];
    for name in names {
        let call = format!("{name}(1)");
        let program = Program::compile(&call).unwrap();
        let mut with = Context::default();
        register_all(&mut with);
        match program.execute(&with) {
            Err(cel::ExecutionError::UndeclaredReference(missing)) => {
                panic!("{name} is not there: {missing}")
            }
            _ => {}
        }
        let without = Context::default();
        if !builtin.contains(&name) {
            assert!(
                matches!(
                    program.execute(&without),
                    Err(cel::ExecutionError::UndeclaredReference(_))
                ),
                "{name}"
            );
        }
    }
}

#[test]
fn each_module_adds_its_own_functions() {
    let cases: [(fn(&mut Context<'_>), &str, &str); 10] = [
        (kube_cel::strings::register, "'Ab'.lowerAscii() == 'ab'", "isSorted(1)"),
        (kube_cel::lists::register, "[1, 2].isSorted()", "trim(1)"),
        (kube_cel::sets::register, "sets.contains([1], [1])", "trim(1)"),
        (kube_cel::regex_funcs::register, "'a1'.find('[0-9]') == '1'", "trim(1)"),
        (kube_cel::urls::register, "isURL('/a')", "trim(1)"),
        (kube_cel::ip::register, "isIP('::1')", "trim(1)"),
        (kube_cel::semver_funcs::register, "isSemver('1.0.0')", "trim(1)"),
        (kube_cel::format::register, "'%d'.format([1]) == '1'", "trim(1)"),
        (kube_cel::quantity::register, "isQuantity('1k')", "trim(1)"),
        (kube_cel::dispatch::register, "'abc'.indexOf('c') == 2", "trim(1)"),
    ];
    for (register, holds, missing) in cases {
        let mut ctx = Context::default();
        register(&mut ctx);
        assert_eq!(Program::compile(holds).unwrap().execute(&ctx), Ok(Value::Bool(true)), "{holds}");
        assert!(matches!(
            Program::compile(missing).unwrap().execute(&ctx),
            Err(cel::ExecutionError::UndeclaredReference(_))
        ));
    }
}

#[test]
fn complaint_about_a_text_that_is_no_number() {
    assert_eq!(parse_quantity("1.2.3").unwrap_err(), "invalid number: '1.2.3'");
    assert_eq!(parse_quantity("--1").unwrap_err(), "invalid number: '--1'");
    assert_eq!(parse_quantity("-.").unwrap_err(), "invalid number: '-.'");
}

// ── Limits and exact forms ──────────────────────────────────────────

#[test]
fn precision_has_a_limit() {
    let widest = eval("'%.65535f'.format([1.5])");
    match widest {
        Value::String(s) => {
            assert_eq!(s.len(), 65537);
            assert!(s.starts_with("1.5000"));
            assert!(s.ends_with("0"));
        }
        other => panic!("{other:?}"),
    }
    assert!(failure("'%.65536f'.format([1.5])").contains("invalid precision in format string"));
    assert!(failure("'%.65536e'.format([1.5])").contains("invalid precision in format string"));
    assert!(failure("'%.99999999999999999999f'.format([1.5])")
        .contains("invalid precision in format string"));
    assert_eq!(eval("'%.1e'.format([1234.5])"), text("1.2e3"));
}

#[test]
fn approximate_float_is_mantissa_times_power_of_ten() {
    assert_eq!(eval("quantity('0.3').asApproximateFloat()"), Value::Float(3.0 * 10f64.powi(-1)));
    assert_eq!(eval("quantity('0.3').asApproximateFloat()"), Value::Float(0.30000000000000004));
    assert_eq!(eval("quantity('1.5').asApproximateFloat()"), Value::Float(1.5));
    assert_eq!(eval("quantity('2k').asApproximateFloat()"), Value::Float(2000.0));
    assert_eq!(eval("quantity('-250m').asApproximateFloat()"), Value::Float(-0.25));
    assert_eq!(eval("quantity('0').asApproximateFloat()"), Value::Float(0.0));
    assert_eq!(eval("quantity('1Ki').asApproximateFloat()"), Value::Float(1024.0));
}

#[test]
fn canonical_text_of_an_ipv4_address() {
    assert_eq!(eval("ip.isCanonical('192.168.0.1')"), Value::Bool(true));
    assert_eq!(eval("ip.isCanonical('0.0.0.0')"), Value::Bool(true));
    assert_eq!(eval("ip.isCanonical('255.255.255.255')"), Value::Bool(true));
    assert_eq!(eval("ip.isCanonical('10.0.200.7')"), Value::Bool(true));
    assert_eq!(eval("ip.isCanonical('1.20.100.0')"), Value::Bool(true));
    assert_eq!(eval("ip.isCanonical('010.0.0.1')"), Value::Bool(false));
    assert_eq!(eval("ip.isCanonical('::1')"), Value::Bool(true));
    assert_eq!(eval("ip.isCanonical('0:0:0:0:0:0:0:1')"), Value::Bool(false));
}

#[test]
fn quantity_of_a_text_without_space_around_it() {
    let gi = parse_trimmed_quantity("1Gi").unwrap();
    assert_eq!(gi.as_integer().ok(), Some(1_073_741_824));
    assert_eq!(parse_trimmed_quantity("1Gi"), parse_quantity("  1Gi\t"));
    assert_eq!(parse_trimmed_quantity("1.5e3"), parse_quantity("1500"));
    assert_eq!(parse_trimmed_quantity("").unwrap_err(), "empty quantity string");
    assert!(parse_trimmed_quantity(" 1Gi").is_err());
    assert!(parse_trimmed_quantity("1Gi ").is_err());
    assert!(parse_trimmed_quantity("Gi").is_err());
    assert!(parse_quantity("   ").is_err());
}

#[test]
fn a_double_colon_stands_for_a_group_at_least() {
    assert!(parse_ip_addr("1:2:3:4::5:6:7:8").is_err());
    assert!(parse_ip_addr("1:2:3:4:5:6:7::8").is_err());
    assert!(parse_ip_addr("::1:2:3:4:5:6:7:8").is_err());
    assert!(parse_ip_addr("1:2:3:4:5:6:7:8::").is_err());
    assert!(parse_ip_addr("1:2:3:4:5:6::1.2.3.4").is_err());
    assert!(parse_ip_addr("::1:2:3:4:5:6:1.2.3.4").is_err());
    assert_eq!(
        parse_ip_addr("::1:2:3:4:5:6:7"),
        Ok(KubeIP { v6: true, bits: 0x0000_0001_0002_0003_0004_0005_0006_0007 })
    );
    assert_eq!(
        parse_ip_addr("1:2:3:4:5:6:7::"),
        Ok(KubeIP { v6: true, bits: 0x0001_0002_0003_0004_0005_0006_0007_0000 })
    );
    assert_eq!(
        parse_ip_addr("1:2:3:4:5::1.2.3.4"),
        Ok(KubeIP { v6: true, bits: 0x0001_0002_0003_0004_0005_0000_0102_0304 })
    );
    assert_eq!(
        parse_ip_addr("1:2:3:4:5:6:7:8"),
        Ok(KubeIP { v6: true, bits: 0x0001_0002_0003_0004_0005_0006_0007_0008 })
    );
    assert_eq!(
        parse_ip_addr("1:2:3:4:5:6:1.2.3.4"),
        Ok(KubeIP { v6: true, bits: 0x0001_0002_0003_0004_0005_0006_0102_0304 })
    );
    assert_eq!(parse_ip_addr("::"), Ok(KubeIP { v6: true, bits: 0 }));
    assert_eq!(parse_ip_addr("1::8"), Ok(KubeIP { v6: true, bits: (1u128 << 112) | 8 }));
    assert_eq!(eval("isIP('1:2:3:4::5:6:7:8')"), Value::Bool(false));
    assert_eq!(eval("isIP('1:2:3::5:6:7:8')"), Value::Bool(true));
    assert!(parse_cidr_net("1:2:3::5:6:7:8/64").is_ok());
}
