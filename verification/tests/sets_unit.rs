#![allow(unused_imports)]

use cel::{Context, Program, Value};
use kube_cel::sets::register;
use std::sync::Arc;

fn eval(expr: &str) -> Value {
    let mut ctx = Context::default();
    register(&mut ctx);
    Program::compile(expr).unwrap().execute(&ctx).unwrap()
}

#[test]
fn test_contains() {
    assert_eq!(eval("sets.contains([1, 2, 3], [1, 2])"), Value::Bool(true));
    assert_eq!(eval("sets.contains([1, 2, 3], [4])"), Value::Bool(false));
    assert_eq!(eval("sets.contains([1, 2, 3], [])"), Value::Bool(true));
}

#[test]
fn test_equivalent() {
    assert_eq!(
        eval("sets.equivalent([1, 2, 3], [3, 2, 1])"),
        Value::Bool(true)
    );
    assert_eq!(
        eval("sets.equivalent([1, 2, 2], [1, 2])"),
        Value::Bool(true)
    );
    assert_eq!(eval("sets.equivalent([1, 2], [1, 3])"), Value::Bool(false));
}

#[test]
fn test_intersects() {
    assert_eq!(eval("sets.intersects([1, 2], [2, 3])"), Value::Bool(true));
    assert_eq!(eval("sets.intersects([1, 2], [3, 4])"), Value::Bool(false));
    assert_eq!(eval("sets.intersects([], [1])"), Value::Bool(false));
}
