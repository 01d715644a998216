#![allow(unused_imports)]

use cel::{Context, Program, Value};
use kube_cel::semver_funcs::register;
use std::sync::Arc;

fn eval(expr: &str) -> Value {
    let mut ctx = Context::default();
    register(&mut ctx);
    kube_cel::dispatch::register(&mut ctx);
    Program::compile(expr).unwrap().execute(&ctx).unwrap()
}

#[test]
fn test_is_semver() {
    assert_eq!(eval("isSemver('1.2.3')"), Value::Bool(true));
    assert_eq!(eval("isSemver('v1.2.3')"), Value::Bool(true));
    assert_eq!(eval("isSemver('1.0')"), Value::Bool(true));
    assert_eq!(eval("isSemver('not-a-version')"), Value::Bool(false));
}

#[test]
fn test_major_minor_patch() {
    assert_eq!(eval("semver('1.2.3').major()"), Value::Int(1));
    assert_eq!(eval("semver('1.2.3').minor()"), Value::Int(2));
    assert_eq!(eval("semver('1.2.3').patch()"), Value::Int(3));
}

#[test]
fn test_leading_v() {
    assert_eq!(eval("semver('v1.2.3').major()"), Value::Int(1));
}

#[test]
fn test_pad_missing_components() {
    assert_eq!(eval("semver('1').major()"), Value::Int(1));
    assert_eq!(eval("semver('1').minor()"), Value::Int(0));
    assert_eq!(eval("semver('1.2').patch()"), Value::Int(0));
}

#[test]
fn semver_funcs_test_is_greater_than() {
    assert_eq!(
        eval("semver('2.0.0').isGreaterThan(semver('1.0.0'))"),
        Value::Bool(true)
    );
    assert_eq!(
        eval("semver('1.0.0').isGreaterThan(semver('2.0.0'))"),
        Value::Bool(false)
    );
}

#[test]
fn semver_funcs_test_is_less_than() {
    assert_eq!(
        eval("semver('1.0.0').isLessThan(semver('2.0.0'))"),
        Value::Bool(true)
    );
}

#[test]
fn semver_funcs_test_compare_to() {
    assert_eq!(
        eval("semver('1.0.0').compareTo(semver('1.0.0'))"),
        Value::Int(0)
    );
    assert_eq!(
        eval("semver('1.0.0').compareTo(semver('2.0.0'))"),
        Value::Int(-1)
    );
    assert_eq!(
        eval("semver('2.0.0').compareTo(semver('1.0.0'))"),
        Value::Int(1)
    );
}

#[test]
fn test_prerelease_ordering() {
    // Pre-release < release
    assert_eq!(
        eval("semver('1.0.0-alpha').isLessThan(semver('1.0.0'))"),
        Value::Bool(true)
    );
    // alpha < beta
    assert_eq!(
        eval("semver('1.0.0-alpha').isLessThan(semver('1.0.0-beta'))"),
        Value::Bool(true)
    );
}

#[test]
fn test_prerelease_numeric_ordering() {
    // Numeric pre-release identifiers compared numerically
    assert_eq!(
        eval("semver('1.0.0-beta.2').isLessThan(semver('1.0.0-beta.11'))"),
        Value::Bool(true)
    );
}

// --- Error & edge case tests ---

fn eval_err(expr: &str) -> cel::ExecutionError {
    let mut ctx = Context::default();
    register(&mut ctx);
    kube_cel::dispatch::register(&mut ctx);
    Program::compile(expr)
        .unwrap()
        .execute(&ctx)
        .unwrap_err()
}

#[test]
fn test_semver_invalid_error() {
    eval_err("semver('not-a-version')");
}

#[test]
fn test_leading_capital_v() {
    assert_eq!(eval("semver('V1.2.3').major()"), Value::Int(1));
}

#[test]
fn test_equal_comparison() {
    assert_eq!(
        eval("semver('1.0.0').isGreaterThan(semver('1.0.0'))"),
        Value::Bool(false)
    );
    assert_eq!(
        eval("semver('1.0.0').isLessThan(semver('1.0.0'))"),
        Value::Bool(false)
    );
}

#[test]
fn test_partial_version_with_pre_release() {
    // "1.2-alpha" should pad to "1.2.0-alpha"
    assert_eq!(
        eval("semver('1.2-alpha').isLessThan(semver('1.2.0'))"),
        Value::Bool(true)
    );
}
