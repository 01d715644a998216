#![allow(unused_imports)]

use cel::{Context, Program, Value};
use kube_cel::urls::register;
use std::sync::Arc;

fn eval(expr: &str) -> Value {
    let mut ctx = Context::default();
    register(&mut ctx);
    Program::compile(expr).unwrap().execute(&ctx).unwrap()
}

#[test]
fn test_is_url() {
    assert_eq!(eval("isURL('https://example.com')"), Value::Bool(true));
    assert_eq!(eval("isURL('/absolute/path')"), Value::Bool(true));
    assert_eq!(eval("isURL('not a url')"), Value::Bool(false));
}

#[test]
fn test_get_scheme() {
    assert_eq!(
        eval("url('https://example.com').getScheme()"),
        Value::String(Arc::new("https".into()))
    );
}

#[test]
fn test_get_host() {
    assert_eq!(
        eval("url('https://example.com:8080/path').getHost()"),
        Value::String(Arc::new("example.com:8080".into()))
    );
}

#[test]
fn test_get_hostname() {
    assert_eq!(
        eval("url('https://example.com:8080/path').getHostname()"),
        Value::String(Arc::new("example.com".into()))
    );
}

#[test]
fn test_get_port() {
    assert_eq!(
        eval("url('https://example.com:8080').getPort()"),
        Value::String(Arc::new("8080".into()))
    );
    assert_eq!(
        eval("url('https://example.com').getPort()"),
        Value::String(Arc::new(String::new()))
    );
}

#[test]
fn test_get_escaped_path() {
    assert_eq!(
        eval("url('https://example.com/my%20path').getEscapedPath()"),
        Value::String(Arc::new("/my%20path".into()))
    );
}
