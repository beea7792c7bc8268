use risp::env::Env;
use risp::parser::Object;

#[test]
fn test_env_new() {
    let env = Env::new();
    assert!(env.vars().is_empty());
}

#[test]
fn test_add_var() {
    let mut env = Env::new();
    env.set("x", Object::Integer(10));
    assert_eq!(env.get("x"), Some(Object::Integer(10)));
}

#[test]
fn test_add_var_with_parent() {
    let mut parent = Env::new();
    parent.set("x", Object::Integer(10));

    let mut env = Env::new_scope(parent);
    env.set("y", Object::Integer(20));

    assert!(env.vars().get("x").is_none(), "X var only existis in parent environment");
    assert_eq!(
        env.get("x"),
        Some(Object::Integer(10)),
        "X is acessible using get because functions can access vars defines outside of their scope"
    );
    assert_eq!(env.get("y"), Some(Object::Integer(20)));
}

#[test]
fn test_remove_scope_without_parent() {
    let mut env = Env::new();
    env.set("x", Object::Integer(10));
    env.set("y", Object::Integer(20));

    env.remove_scope();

    assert!(env.vars().is_empty());
}

#[test]
fn test_get_unbound_is_none() {
    let env = Env::new();
    assert_eq!(env.get("x"), None);
}

#[test]
fn test_set_overwrites_in_current_scope() {
    let mut env = Env::new();
    env.set("x", Object::Integer(1));
    env.set("x", Object::Integer(2));
    assert_eq!(env.get("x"), Some(Object::Integer(2)));
}

#[test]
fn test_set_shadows_without_changing_parent() {
    let mut parent = Env::new();
    parent.set("x", Object::Integer(10));
    let mut env = Env::new_scope(parent);
    env.set("x", Object::Integer(99));
    assert_eq!(env.get("x"), Some(Object::Integer(99)));
    env.remove_scope();
    assert_eq!(env.get("x"), Some(Object::Integer(10)));
}

#[test]
fn test_remove_scope_restores_parent_chain() {
    let mut root = Env::new();
    root.set("a", Object::Integer(1));
    let mut middle = Env::new_scope(root);
    middle.set("b", Object::Integer(2));
    let mut inner = Env::new_scope(middle);
    inner.set("c", Object::Integer(3));

    inner.remove_scope();
    assert_eq!(inner.get("c"), None);
    assert_eq!(inner.get("b"), Some(Object::Integer(2)));
    assert_eq!(inner.get("a"), Some(Object::Integer(1)));

    inner.remove_scope();
    assert_eq!(inner.get("b"), None);
    assert_eq!(inner.get("a"), Some(Object::Integer(1)));

    inner.remove_scope();
    assert_eq!(inner.get("a"), None);
    assert!(inner.vars().is_empty());
}

#[test]
fn test_push_scope_keeps_outer_bindings_visible() {
    let mut env = Env::new();
    env.set("x", Object::Integer(7));
    env.push_scope();
    assert!(env.vars().is_empty());
    assert_eq!(env.get("x"), Some(Object::Integer(7)));
    env.set("y", Object::Integer(8));
    env.remove_scope();
    assert_eq!(env.get("y"), None);
    assert_eq!(env.get("x"), Some(Object::Integer(7)));
}
