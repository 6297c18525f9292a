use atomic_lib::Store;

fn init_store() -> Store {
    let string =
        String::from("[\"_:test\",\"https://atomicdata.dev/properties/shortname\",\"hi\"]");
    let mut store = Store::init();
    store.load_default();
    // Run parse...
    store.parse_ad3(&string).unwrap();
    store
}

#[test]
fn get() {
    let store = init_store();
    // Get our resource...
    let my_resource = store.get_resource_string("_:test").unwrap();
    // Get our value by filtering on our property...
    let my_value = my_resource
        .get("https://atomicdata.dev/properties/shortname")
        .unwrap();
    println!("My value: {}", my_value);
    assert!(my_value == "hi");
}

#[test]
fn validate() {
    let store = init_store();
    store.validate_store().unwrap();
}

#[test]
#[should_panic]
fn validate_invalid() {
    let mut store = init_store();
    let invalid_ad3 =
        // should be array, is string
        String::from("[\"_:test\",\"https://atomicdata.dev/properties/requires\",\"Test\"]");
    store.parse_ad3(&invalid_ad3).unwrap();
    store.validate_store().unwrap();
}

#[test]
fn serialize() {
    let store = init_store();
    store
        .resource_to_json(&String::from("https://atomicdata.dev/classes/Class"), 1, true)
        .unwrap();
}
