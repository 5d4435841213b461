use mcp_tools::dispatch::{ArgType, OpKind, OpResult, Registry, RetType, Value};
use mcp_tools::errors::{OpError, RegisterError};

fn no_args() -> Vec<Value> {
    Vec::new()
}

#[test]
fn unknown_operation_name_fails() {
    let mut r = Registry::with_all_ops();
    assert_eq!(r.dispatch("no_such_op", &no_args()), Err(OpError::UnknownOperation));
    assert_eq!(r.dispatch("", &no_args()), Err(OpError::UnknownOperation));
    assert_eq!(r.dispatch("Increment", &no_args()), Err(OpError::UnknownOperation));
}

#[test]
fn nothing_is_dispatched_on_an_empty_registry() {
    let mut r = Registry::new();
    assert_eq!(r.dispatch("increment", &no_args()), Err(OpError::UnknownOperation));
}

#[test]
fn wrong_argument_shape_fails() {
    let mut r = Registry::with_all_ops();
    assert_eq!(
        r.dispatch("increment", &vec![Value::Int(1)]),
        Err(OpError::InvalidArguments)
    );
    assert_eq!(
        r.dispatch("add", &vec![Value::Int(1)]),
        Err(OpError::InvalidArguments)
    );
    assert_eq!(
        r.dispatch("add", &vec![Value::Str(String::from("1")), Value::Int(2)]),
        Err(OpError::InvalidArguments)
    );
    assert_eq!(
        r.dispatch("is_valid_ipv4", &vec![Value::Int(5)]),
        Err(OpError::InvalidArguments)
    );
    assert_eq!(
        r.dispatch("is_ip_in_cidr", &vec![Value::Str(String::from("1.2.3.4"))]),
        Err(OpError::InvalidArguments)
    );
    // A failed call leaves the counter alone.
    assert_eq!(r.dispatch("get_value", &no_args()), Ok(OpResult::Int(0)));
}

#[test]
fn counter_operations_dispatch() {
    let mut r = Registry::with_all_ops();
    assert_eq!(r.dispatch("increment", &no_args()), Ok(OpResult::Int(1)));
    assert_eq!(r.dispatch("increment", &no_args()), Ok(OpResult::Int(2)));
    assert_eq!(r.dispatch("decrement", &no_args()), Ok(OpResult::Int(1)));
    assert_eq!(r.dispatch("get_value", &no_args()), Ok(OpResult::Int(1)));
    assert_eq!(r.dispatch("get_value", &no_args()), Ok(OpResult::Int(1)));
}

#[test]
fn add_dispatches_with_checked_arithmetic() {
    let mut r = Registry::with_all_ops();
    assert_eq!(
        r.dispatch("add", &vec![Value::Int(2), Value::Int(3)]),
        Ok(OpResult::Int(5))
    );
    assert_eq!(
        r.dispatch("add", &vec![Value::Int(i32::MAX), Value::Int(1)]),
        Err(OpError::ArithmeticOverflow)
    );
}

#[test]
fn ip_operations_dispatch() {
    let mut r = Registry::with_all_ops();
    assert_eq!(
        r.dispatch("is_valid_ipv4", &vec![Value::Str(String::from("192.168.1.1"))]),
        Ok(OpResult::Bool(true))
    );
    assert_eq!(
        r.dispatch("is_valid_ipv4", &vec![Value::Str(String::from("256.1.1.1"))]),
        Ok(OpResult::Bool(false))
    );
    assert_eq!(
        r.dispatch(
            "is_ip_in_cidr",
            &vec![
                Value::Str(String::from("192.168.1.5")),
                Value::Str(String::from("192.168.1.0/24")),
            ]
        ),
        Ok(OpResult::Bool(true))
    );
    assert_eq!(
        r.dispatch(
            "is_ip_in_cidr",
            &vec![
                Value::Str(String::from("192.168.2.5")),
                Value::Str(String::from("192.168.1.0/24")),
            ]
        ),
        Ok(OpResult::Bool(false))
    );
}

#[test]
fn duplicate_registration_fails() {
    let mut r = Registry::new();
    assert_eq!(r.register(OpKind::Increment), Ok(()));
    assert_eq!(r.register(OpKind::Add), Ok(()));
    assert_eq!(r.register(OpKind::Increment), Err(RegisterError::DuplicateName));
    assert_eq!(r.register(OpKind::Add), Err(RegisterError::DuplicateName));
    assert_eq!(r.register(OpKind::Decrement), Ok(()));
}

#[test]
fn descriptors_serve_the_declared_surface() {
    let r = Registry::with_all_ops();
    let ds = r.descriptors();
    assert_eq!(ds.len(), 6);
    let names: Vec<&str> = ds.iter().map(|d| d.name.as_str()).collect();
    assert_eq!(
        names,
        vec!["increment", "decrement", "get_value", "add", "is_valid_ipv4", "is_ip_in_cidr"]
    );
    let add = &ds[3];
    assert_eq!(add.description, "Add two numbers together");
    assert_eq!(add.params.len(), 2);
    assert_eq!(add.params[0].name, "a");
    assert_eq!(add.params[0].ty, ArgType::Integer);
    assert_eq!(add.params[1].name, "b");
    assert_eq!(add.params[1].ty, ArgType::Integer);
    assert_eq!(add.ret, RetType::Integer);
    let cidr = &ds[5];
    assert_eq!(cidr.description, "Check if an IP address is within a CIDR range");
    assert_eq!(cidr.params.len(), 2);
    assert_eq!(cidr.params[0].name, "ip_str");
    assert_eq!(cidr.params[1].name, "cidr_str");
    assert_eq!(cidr.ret, RetType::Boolean);
    let inc = &ds[0];
    assert_eq!(inc.description, "Increment the counter by 1");
    assert_eq!(inc.params.len(), 0);
    assert_eq!(inc.ret, RetType::Integer);
}
