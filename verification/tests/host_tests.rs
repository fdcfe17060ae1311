use cillio::host::{Runtime, RuntimeError};
use cillio::value::{Value, ValueRecord};

#[test]
fn corrupt_module_binary_is_a_wasm_load_error() {
    let mut runtime = Runtime::new().unwrap();
    let corrupt: Vec<u8> = vec![0, 1, 2, 3];
    let err = runtime.load_component(&String::from("n1"), &corrupt).unwrap_err();
    assert!(matches!(err, RuntimeError::WasmLoadError(_)));
    assert!(runtime.get_component(&String::from("n1")).is_none());
}

#[test]
fn valid_component_loads_and_is_cached() {
    let mut runtime = Runtime::new().unwrap();
    // The compiler accepts the wasm text format; this is the empty component.
    let bytes: Vec<u8> = b"(component)".to_vec();
    runtime.load_component(&String::from("n1"), &bytes).unwrap();
    assert!(runtime.get_component(&String::from("n1")).is_some());
    assert!(runtime.get_component(&String::from("n2")).is_none());
}

#[test]
fn loading_is_load_once_per_node_id() {
    let mut runtime = Runtime::new().unwrap();
    let bytes: Vec<u8> = b"(component)".to_vec();
    runtime.load_component(&String::from("n1"), &bytes).unwrap();
    // A second load of the same id succeeds without recompiling, even from
    // bytes that would not compile.
    let corrupt: Vec<u8> = vec![9, 9, 9];
    runtime.load_component(&String::from("n1"), &corrupt).unwrap();
    assert!(runtime.get_component(&String::from("n1")).is_some());
}

#[test]
fn failed_load_leaves_cache_unchanged() {
    let mut runtime = Runtime::new().unwrap();
    let bytes: Vec<u8> = b"(component)".to_vec();
    runtime.load_component(&String::from("good"), &bytes).unwrap();
    let corrupt: Vec<u8> = vec![0xde, 0xad];
    assert!(runtime.load_component(&String::from("bad"), &corrupt).is_err());
    assert!(runtime.get_component(&String::from("good")).is_some());
    assert!(runtime.get_component(&String::from("bad")).is_none());
}

#[test]
fn data_store_records_and_replaces() {
    let mut runtime = Runtime::new().unwrap();
    let mut first = ValueRecord::new();
    first.set(String::from("number"), Value::Signed(1));
    runtime.set_data(String::from("n1"), first);
    let mut second = ValueRecord::new();
    second.set(String::from("number"), Value::Signed(2));
    runtime.set_data(String::from("n1"), second);

    let rec = runtime.get_data(&String::from("n1")).unwrap();
    assert_eq!(rec.get(&String::from("number")), Some(&Value::Signed(2)));
    assert!(runtime.get_data(&String::from("n2")).is_none());
    assert_eq!(runtime.get_data_map().len(), 1);
}

#[test]
fn value_record_set_get_and_well_formedness() {
    let mut rec = ValueRecord::new();
    assert!(rec.is_well_formed());
    rec.set(String::from("a"), Value::Truth(true));
    rec.set(String::from("b"), Value::Text(String::from("hi")));
    rec.set(String::from("a"), Value::Signed(-4));
    assert_eq!(rec.len(), 2);
    assert!(rec.is_well_formed());
    assert_eq!(rec.get(&String::from("a")), Some(&Value::Signed(-4)));
    assert_eq!(rec.get(&String::from("b")), Some(&Value::Text(String::from("hi"))));
    assert!(rec.get(&String::from("c")).is_none());
    let copy = rec.duplicate();
    assert_eq!(copy, rec);
}
