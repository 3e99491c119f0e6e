use lib::environment::Environment;
use lib::value::Value;



#[test]
fn define_and_get() {
    let mut env = Environment::new();
    env.define("x".into(), Value::Number(42.0f64.to_bits()));
    assert_eq!(env.get("x"), Some(&Value::Number(42.0f64.to_bits())));
}

#[test]
fn environment_undefined_variable() {
    let env = Environment::new();
    assert_eq!(env.get("y"), None);
}

#[test]
fn child_scope_accesses_parent() {
    let mut global = Environment::new();
    global.define("x".into(), Value::Number(10.0f64.to_bits()));

    let child = Environment::with_parent(global);
    assert_eq!(child.get("x"), Some(&Value::Number(10.0f64.to_bits())));
}

#[test]
fn child_scope_shadows_parent() {
    let mut global = Environment::new();
    global.define("x".into(), Value::Number(10.0f64.to_bits()));

    let mut child = Environment::with_parent(global);
    child.define("x".into(), Value::Number(99.0f64.to_bits()));
    assert_eq!(child.get("x"), Some(&Value::Number(99.0f64.to_bits())));
}

#[test]
fn set_updates_correct_scope() {
    let mut global = Environment::new();
    global.define("x".into(), Value::Number(10.0f64.to_bits()));

    let mut child = Environment::with_parent(global);
    child.set("x", Value::Number(20.0f64.to_bits())).unwrap();
    assert_eq!(child.get("x"), Some(&Value::Number(20.0f64.to_bits())));
}

#[test]
fn set_undefined_returns_error() {
    let mut env = Environment::new();
    let result = env.set("z", Value::Number(1.0f64.to_bits()));
    assert!(result.is_err());
}

#[test]
fn into_parent_restores_scope() {
    let mut global = Environment::new();
    global.define("x".into(), Value::Number(10.0f64.to_bits()));

    let child = Environment::with_parent(global);
    let restored = child.into_parent().unwrap();
    assert_eq!(restored.get("x"), Some(&Value::Number(10.0f64.to_bits())));
}
