#![allow(unused_imports)]

use cel::{Context, Program, Value};
use kube_cel::strings::register;
use std::sync::Arc;

fn eval(expr: &str) -> Value {
    let mut ctx = Context::default();
    register(&mut ctx);
    // indexOf/lastIndexOf registered via dispatch
    kube_cel::dispatch::register(&mut ctx);
    Program::compile(expr).unwrap().execute(&ctx).unwrap()
}

#[test]
fn test_char_at() {
    assert_eq!(
        eval("'hello'.charAt(0)"),
        Value::String(Arc::new("h".into()))
    );
    assert_eq!(
        eval("'hello'.charAt(4)"),
        Value::String(Arc::new("o".into()))
    );
}

#[test]
fn strings_test_index_of() {
    assert_eq!(eval("'hello world'.indexOf('world')"), Value::Int(6));
    assert_eq!(eval("'hello'.indexOf('x')"), Value::Int(-1));
    assert_eq!(eval("'hello'.indexOf('')"), Value::Int(0));
}

#[test]
fn strings_test_last_index_of() {
    assert_eq!(eval("'abcabc'.lastIndexOf('abc')"), Value::Int(3));
    assert_eq!(eval("'hello'.lastIndexOf('x')"), Value::Int(-1));
}

#[test]
fn test_lower_upper_ascii() {
    assert_eq!(
        eval("'Hello World'.lowerAscii()"),
        Value::String(Arc::new("hello world".into()))
    );
    assert_eq!(
        eval("'Hello World'.upperAscii()"),
        Value::String(Arc::new("HELLO WORLD".into()))
    );
}

#[test]
fn test_trim() {
    assert_eq!(
        eval("'  hello  '.trim()"),
        Value::String(Arc::new("hello".into()))
    );
}

#[test]
fn test_split() {
    assert_eq!(
        eval("'a,b,c'.split(',')"),
        Value::List(Arc::new(vec![
            Value::String(Arc::new("a".into())),
            Value::String(Arc::new("b".into())),
            Value::String(Arc::new("c".into())),
        ]))
    );
}

#[test]
fn test_join() {
    assert_eq!(
        eval("['a', 'b', 'c'].join('-')"),
        Value::String(Arc::new("a-b-c".into()))
    );
}

#[test]
fn test_replace() {
    assert_eq!(
        eval("'hello world'.replace('world', 'CEL')"),
        Value::String(Arc::new("hello CEL".into()))
    );
}

#[test]
fn test_substring() {
    assert_eq!(
        eval("'hello'.substring(1)"),
        Value::String(Arc::new("ello".into()))
    );
}

#[test]
fn test_strings_quote() {
    assert_eq!(
        eval("strings.quote('hello')"),
        Value::String(Arc::new("\"hello\"".into()))
    );
}

// --- Error & edge case tests ---

fn eval_err(expr: &str) -> cel::ExecutionError {
    let mut ctx = Context::default();
    register(&mut ctx);
    kube_cel::dispatch::register(&mut ctx);
    Program::compile(expr)
        .unwrap()
        .execute(&ctx)
        .unwrap_err()
}

#[test]
fn test_char_at_out_of_bounds() {
    eval_err("'hello'.charAt(-1)");
    eval_err("'hello'.charAt(5)");
}

#[test]
fn test_char_at_unicode() {
    assert_eq!(
        eval("'héllo'.charAt(1)"),
        Value::String(Arc::new("é".into()))
    );
}

#[test]
fn test_index_of_with_offset() {
    // offset past first occurrence
    assert_eq!(eval("'abcabc'.indexOf('abc', 1)"), Value::Int(3));
    // negative offset clamps to 0
    assert_eq!(eval("'hello'.indexOf('h', -5)"), Value::Int(0));
    // offset past end
    assert_eq!(eval("'hello'.indexOf('h', 100)"), Value::Int(-1));
}

#[test]
fn test_last_index_of_with_offset() {
    assert_eq!(eval("'abcabc'.lastIndexOf('abc', 3)"), Value::Int(0));
    // empty search returns the offset
    assert_eq!(eval("'hello'.lastIndexOf('', 3)"), Value::Int(3));
}

#[test]
fn test_substring_two_args() {
    assert_eq!(
        eval("'hello'.substring(1, 3)"),
        Value::String(Arc::new("el".into()))
    );
}

#[test]
fn test_substring_errors() {
    eval_err("'hello'.substring(-1)");
    eval_err("'hello'.substring(10)");
    eval_err("'hello'.substring(3, 2)"); // end < start
    eval_err("'hello'.substring(0, 10)"); // end > len
}

#[test]
fn test_replace_with_count() {
    assert_eq!(
        eval("'aaa'.replace('a', 'b', 2)"),
        Value::String(Arc::new("bba".into()))
    );
    // count 0 replaces nothing
    assert_eq!(
        eval("'aaa'.replace('a', 'b', 0)"),
        Value::String(Arc::new("aaa".into()))
    );
}

#[test]
fn test_split_with_limit() {
    assert_eq!(
        eval("'a,b,c'.split(',', 2)"),
        Value::List(Arc::new(vec![
            Value::String(Arc::new("a".into())),
            Value::String(Arc::new("b,c".into())),
        ]))
    );
}

#[test]
fn test_join_no_separator() {
    assert_eq!(
        eval("['a', 'b', 'c'].join()"),
        Value::String(Arc::new("abc".into()))
    );
}

#[test]
fn test_strings_quote_escapes() {
    assert_eq!(
        eval("strings.quote('a\\nb')"),
        Value::String(Arc::new("\"a\\nb\"".into()))
    );
    assert_eq!(
        eval("strings.quote('a\\tb')"),
        Value::String(Arc::new("\"a\\tb\"".into()))
    );
}
