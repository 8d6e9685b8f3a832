use tensor_env::env::Aggregator;
use tensor_env::env::Environment;
use tensor_env::env::NamedValue;
use tensor_env::tensor::generate;
use tensor_env::tensor::DenseArray;
use tensor_env::tensor::FillStrategy;

fn named(name: &str, dims: Vec<usize>, fill: FillStrategy) -> NamedValue {
    NamedValue {
        name: name.to_string(),
        value: generate(&dims, fill),
    }
}

fn elems_of<'e>(env: &'e Environment, name: &str) -> &'e DenseArray {
    env.get(name).expect("name should be present")
}

#[test]
fn empty_environment_has_nothing() {
    let env = Environment::new();
    assert_eq!(env.len(), 0);
    assert!(env.get("a").is_none());
}

#[test]
fn insert_then_get() {
    let mut env = Environment::new();
    env.insert(named("a", vec![2], FillStrategy::Ones));
    assert_eq!(env.len(), 1);
    assert_eq!(elems_of(&env, "a").dims, vec![2]);
    assert!(env.get("b").is_none());
}

#[test]
fn insert_same_name_overwrites() {
    let mut env = Environment::new();
    env.insert(named("a", vec![2], FillStrategy::Ones));
    env.insert(named("a", vec![3], FillStrategy::Zeros));
    assert_eq!(env.len(), 1);
    assert_eq!(elems_of(&env, "a").dims, vec![3]);
}

#[test]
fn aggregator_last_write_wins_per_key() {
    // Starting empty: a preset pair {"a": A}, a row update {"b": B}, then
    // a row update {"a": A2}; the snapshot holds exactly A2 under "a" and
    // B under "b".
    let a = named("a", vec![2], FillStrategy::Ones);
    let b = named("b", vec![3], FillStrategy::Zeros);
    let a2 = named("a", vec![4], FillStrategy::Zeros);
    let a2_elems = a2.value.elems.clone();
    let b_elems = b.value.elems.clone();

    let mut agg = Aggregator::new();
    agg.apply_preset(&vec![a]);
    agg.on_row_update(b);
    agg.on_row_update(a2);

    let snap = agg.snapshot();
    assert_eq!(snap.len(), 2);
    assert_eq!(elems_of(&snap, "a").dims, vec![4]);
    assert_eq!(elems_of(&snap, "a").elems, a2_elems);
    assert_eq!(elems_of(&snap, "b").dims, vec![3]);
    assert_eq!(elems_of(&snap, "b").elems, b_elems);
}

#[test]
fn apply_preset_keeps_existing_entries() {
    let mut agg = Aggregator::new();
    agg.on_row_update(named("u", vec![1], FillStrategy::Ones));
    agg.apply_preset(&vec![named("p", vec![2], FillStrategy::Zeros)]);
    let snap = agg.snapshot();
    assert_eq!(snap.len(), 2);
    assert!(snap.get("u").is_some());
    assert!(snap.get("p").is_some());
}

#[test]
fn reset_replaces_the_mapping_wholesale() {
    let mut agg = Aggregator::new();
    agg.on_row_update(named("x", vec![1], FillStrategy::Ones));
    let mut base = Environment::new();
    base.insert(named("y", vec![2], FillStrategy::Zeros));
    agg.reset(base);
    let snap = agg.snapshot();
    assert_eq!(snap.len(), 1);
    assert!(snap.get("x").is_none());
    assert!(snap.get("y").is_some());
}

#[test]
fn snapshot_is_a_deep_copy() {
    let mut agg = Aggregator::new();
    agg.on_row_update(named("a", vec![2], FillStrategy::Ones));
    let snap = agg.snapshot();
    agg.on_row_update(named("a", vec![5], FillStrategy::Zeros));
    assert_eq!(elems_of(&snap, "a").dims, vec![2]);
}
