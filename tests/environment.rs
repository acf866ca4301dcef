use mini_compiler::env::{add, Env};

#[test]
fn test_add() {
    let mut env = Env::new();
    let slot = add("x".to_string(), &mut env);
    assert_eq!(slot, 1);
    let slot = add("y".to_string(), &mut env);
    assert_eq!(slot, 2);
}

#[test]
fn rebinding_takes_a_new_highest_slot() {
    let mut env = Env::new();
    assert_eq!(add("x".to_string(), &mut env), 1);
    assert_eq!(add("y".to_string(), &mut env), 2);
    assert_eq!(add("x".to_string(), &mut env), 3);
    assert_eq!(env.lookup(&"x".to_string()), Some(3));
    assert_eq!(env.lookup(&"y".to_string()), Some(2));
    assert_eq!(add("z".to_string(), &mut env), 4);
}

#[test]
fn lookup_of_an_unbound_name_is_none() {
    let env = Env::new();
    assert_eq!(env.lookup(&"x".to_string()), None);
}

#[test]
fn reserved_slots_are_not_bound() {
    let mut env = Env::new();
    let slot = env.reserve();
    assert_eq!(slot, 1);
    assert_eq!(env.lookup(&"a".to_string()), None);
    env.bind("a".to_string(), slot);
    assert_eq!(env.lookup(&"a".to_string()), Some(1));
    assert_eq!(env.reserve(), 2);
}
