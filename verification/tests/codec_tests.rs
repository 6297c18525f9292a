use atomic_lib::Store;
use atomic_lib::value::Datatype;
use atomic_lib::value::Value;
use atomic_lib::serialize::content_type_from_extension;
use atomic_lib::serialize::ContentType;

#[test]
fn basic_parse_and_get() {
    // Parsing one fact and reading it back through the store.
    let string =
        String::from("[\"_:test\",\"https://atomicdata.dev/properties/shortname\",\"Test\"]");
    let mut store = Store::init();
    store.parse_ad3(&string).unwrap();
    let my_resource = store.get_resource_string("_:test").unwrap();
    let my_value = my_resource
        .get("https://atomicdata.dev/properties/shortname")
        .unwrap();
    assert!(my_value == "Test");
}

#[test]
fn ad3_round_trip() {
    // Serializing a resource and parsing the text back yields the same
    // property values, including ones that need escaping.
    let mut store = Store::init();
    let mut text_in = String::new();
    text_in.push_str("[\"_:r\",\"https://example.com/p/one\",\"plain\"]\n");
    text_in.push_str("[\"_:r\",\"https://example.com/p/two\",\"line\\nbreak and \\\"quote\\\"\"]");
    store.parse_ad3(&text_in).unwrap();
    let text = store.resource_to_ad3("_:r", None).unwrap();
    assert!(text.contains("\\n"));
    assert!(text.contains("\\\""));
    let mut store2 = Store::init();
    store2.parse_ad3(&text).unwrap();
    let r2 = store2.get_resource_string("_:r").unwrap();
    assert_eq!(r2.get("https://example.com/p/one").unwrap(), "plain");
    assert_eq!(
        r2.get("https://example.com/p/two").unwrap(),
        "line\nbreak and \"quote\""
    );
}

#[test]
fn parse_reports_first_bad_line() {
    let mut store = Store::init();
    let err = store
        .parse_ad3(&String::from("[\"a\",\"b\",\"c\"]\nnot a triple"))
        .unwrap_err();
    assert!(matches!(err, atomic_lib::AtomicError::Parse { line: 2 }));
    // nothing was applied
    assert!(store.get_resource_string("a").is_none());
}

#[test]
fn parse_rejects_wrong_arity() {
    let mut store = Store::init();
    let err = store.parse_ad3(&String::from("[\"a\",\"b\"]")).unwrap_err();
    assert!(matches!(err, atomic_lib::AtomicError::Parse { line: 1 }));
}

#[test]
fn blank_lines_are_skipped() {
    let mut store = Store::init();
    store
        .parse_ad3(&String::from("\n[\"_:x\",\"https://example.com/p\",\"v\"]\n\n"))
        .unwrap();
    assert!(store.get_resource_string("_:x").is_some());
}

#[test]
fn base_url_rewrites_placeholder_subjects() {
    let mut store = Store::init();
    store
        .parse_ad3(&String::from("[\"_:x\",\"https://example.com/p\",\"v\"]"))
        .unwrap();
    let text = store
        .resource_to_ad3("_:x", Some(&String::from("https://example.com")))
        .unwrap();
    assert!(text.starts_with("[\"https://example.com/x\","));
}

#[test]
fn resource_to_ad3_unknown_subject() {
    let store = Store::init();
    let err = store.resource_to_ad3("_:none", None).unwrap_err();
    assert!(matches!(err, atomic_lib::AtomicError::NotFound { .. }));
}

#[test]
fn value_datatype_rejection() {
    // a non-numeric string is not an Integer
    assert!(Value::new("abc", &Datatype::Integer).is_err());
    // a numeric one is, and keeps its text exactly
    let v = Value::new("123", &Datatype::Integer).unwrap();
    assert_eq!(v.raw, "123");
    assert!(Value::new("-42", &Datatype::Integer).is_ok());
    assert!(Value::new("", &Datatype::Integer).is_err());
    assert!(Value::new("true", &Datatype::Boolean).is_ok());
    assert!(Value::new("True", &Datatype::Boolean).is_err());
    assert!(Value::new("2021-02-28", &Datatype::Date).is_ok());
    assert!(Value::new("2021-13-28", &Datatype::Date).is_err());
    assert!(Value::new("3.25", &Datatype::Float).is_ok());
    assert!(Value::new("3.", &Datatype::Float).is_err());
    assert!(Value::new("my-slug7", &Datatype::Slug).is_ok());
    assert!(Value::new("My Slug", &Datatype::Slug).is_err());
    assert!(Value::new("https://example.com/x", &Datatype::AtomicUrl).is_ok());
    assert!(Value::new("nonsense", &Datatype::AtomicUrl).is_err());
    assert!(
        Value::new("[\"https://example.com/x\"]", &Datatype::ResourceArray).is_ok()
    );
    assert!(Value::new("https://example.com/x", &Datatype::ResourceArray).is_err());
}

#[test]
fn json_serialization_shapes() {
    let mut store = Store::init();
    store.load_default();
    store
        .parse_ad3(&String::from(
            "[\"_:test\",\"https://atomicdata.dev/properties/shortname\",\"hi\"]",
        ))
        .unwrap();
    let json = store.resource_to_json("_:test", 1, false).unwrap();
    assert_eq!(json, "{\"@id\":\"_:test\",\"shortname\":\"hi\"}");
    let jsonld = store.resource_to_json("_:test", 1, true).unwrap();
    assert_eq!(
        jsonld,
        "{\"@context\":{\"shortname\":\"https://atomicdata.dev/properties/shortname\"},\
         \"@id\":\"_:test\",\"shortname\":\"hi\"}"
    );
}

#[test]
fn n_triples_serialization() {
    let mut store = Store::init();
    store.load_default();
    store
        .parse_ad3(&String::from(
            "[\"_:test\",\"https://atomicdata.dev/properties/shortname\",\"hi\"]",
        ))
        .unwrap();
    let resource = store.get_resource_string("_:test").unwrap();
    let atoms = resource.to_atoms();
    let body = atomic_lib::serialize::serialize_atoms_to_n_triples(atoms, &store);
    assert_eq!(
        body,
        "<_:test> <https://atomicdata.dev/properties/shortname> \"hi\"\
         ^^<https://atomicdata.dev/datatypes/slug> .\n"
    );
}

#[test]
fn content_types() {
    assert_eq!(content_type_from_extension("ad3"), ContentType::Ad3);
    assert_eq!(content_type_from_extension("json"), ContentType::Json);
    assert_eq!(content_type_from_extension("jsonld"), ContentType::JsonLd);
    assert_eq!(content_type_from_extension("ttl"), ContentType::Turtle);
    assert_eq!(content_type_from_extension("weird"), ContentType::Html);
    assert_eq!(ContentType::Json.to_mime(), "application/json");
    assert_eq!(ContentType::Turtle.to_mime(), "text/turtle");
}
