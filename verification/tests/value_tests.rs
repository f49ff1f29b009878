use cfgpp::{CfgppError, CfgppValue};

fn sample() -> CfgppValue {
    let mut credentials = CfgppValue::object();
    credentials.set("username", CfgppValue::string("admin")).unwrap();
    let mut server_a = CfgppValue::object();
    server_a.set("name", CfgppValue::string("web1")).unwrap();
    let mut server_b = CfgppValue::object();
    server_b.set("name", CfgppValue::string("web2")).unwrap();
    let mut grid = CfgppValue::array();
    grid.push(CfgppValue::array_with_values(vec![CfgppValue::integer(1), CfgppValue::integer(2)]))
        .unwrap();
    let mut root = CfgppValue::object();
    root.set("credentials", credentials).unwrap();
    root.set("servers", CfgppValue::array_with_values(vec![server_a, server_b])).unwrap();
    root.set("grid", grid).unwrap();
    root.set("", CfgppValue::boolean(true)).unwrap();
    root
}

#[test]
fn constructors_and_kinds() {
    let values = vec![
        (CfgppValue::null(), "null"),
        (CfgppValue::boolean(true), "boolean"),
        (CfgppValue::integer(-3), "integer"),
        (CfgppValue::double(1.5f64.to_bits()), "double"),
        (CfgppValue::string("s"), "string"),
        (CfgppValue::enum_value("e"), "enum"),
        (CfgppValue::array(), "array"),
        (CfgppValue::object(), "object"),
    ];
    for (value, name) in &values {
        assert_eq!(value.kind_name(), *name);
    }
    assert!(values[0].0.is_null());
    assert!(values[1].0.is_boolean());
    assert!(values[2].0.is_integer());
    assert!(values[3].0.is_double());
    assert!(values[4].0.is_string());
    assert!(values[5].0.is_enum());
    assert!(values[6].0.is_array());
    assert!(values[7].0.is_object());
    assert!(!values[4].0.is_enum());
    assert_eq!(values[1].0.as_boolean(), Some(true));
    assert_eq!(values[2].0.as_integer(), Some(-3));
    assert_eq!(values[3].0.as_double().map(f64::from_bits), Some(1.5));
    assert_eq!(values[4].0.as_string(), Some("s"));
    assert_eq!(values[5].0.as_string(), Some("e"));
    assert_eq!(values[0].0.as_string(), None);
    assert_eq!(values[2].0.as_boolean(), None);
    assert_eq!(values[6].0.as_array().map(|a| a.len()), Some(0));
    assert_eq!(values[7].0.as_object().map(|o| o.len()), Some(0));
    assert!(values[6].0.as_object().is_none());
}

#[test]
fn len_and_is_empty_of_scalars() {
    for value in [
        CfgppValue::null(),
        CfgppValue::boolean(false),
        CfgppValue::integer(0),
        CfgppValue::string(""),
        CfgppValue::enum_value(""),
    ] {
        assert_eq!(value.len(), 0);
        assert!(!value.is_empty());
    }
    assert!(CfgppValue::array().is_empty());
    assert!(CfgppValue::object().is_empty());
    let value = sample();
    assert_eq!(value.len(), 4);
    assert!(!value.is_empty());
    assert_eq!(value.get("servers").unwrap().len(), 2);
}

#[test]
fn get_and_get_index_on_the_wrong_kind() {
    let value = sample();
    assert!(value.get("servers").is_some());
    assert!(value.get("missing").is_none());
    assert!(value.get_index(0).is_none());
    let servers = value.get("servers").unwrap();
    assert!(servers.get("name").is_none());
    assert!(servers.get_index(1).is_some());
    assert!(servers.get_index(2).is_none());
    assert!(CfgppValue::integer(1).get("a").is_none());
    assert!(CfgppValue::integer(1).get_index(0).is_none());
}

#[test]
fn paths() {
    let value = sample();
    assert_eq!(value.get_path("credentials.username").unwrap().as_string(), Some("admin"));
    assert_eq!(value.get_path("servers[0].name").unwrap().as_string(), Some("web1"));
    assert_eq!(value.get_path("servers[1].name").unwrap().as_string(), Some("web2"));
    assert_eq!(value.get_path("servers[+1].name").unwrap().as_string(), Some("web2"));
    assert_eq!(value.get_path("servers[01].name").unwrap().as_string(), Some("web2"));
    assert_eq!(value.get_path("grid[0].[1]").unwrap().as_integer(), Some(2));
    assert_eq!(value.get_path("servers").unwrap().len(), 2);
    assert_eq!(value.get_path("").unwrap().as_boolean(), Some(true));
    assert!(value.get_path("servers[2].name").is_none());
    assert!(value.get_path("servers[x]").is_none());
    assert!(value.get_path("servers[]").is_none());
    assert!(value.get_path("servers[-1]").is_none());
    assert!(value.get_path("servers[0][0]").is_none());
    assert!(value.get_path("servers[99999999999999999999999999]").is_none());
    assert!(value.get_path("servers.name").is_none());
    assert!(value.get_path("credentials.username.more").is_none());
    assert!(value.get_path("credentials[0]").is_none());
    assert!(value.get_path("credentials.").is_none());
    assert!(value.get_path("missing.username").is_none());
    assert_eq!(
        CfgppValue::array_with_values(vec![CfgppValue::integer(7)]).get_path("[0]"),
        Some(&CfgppValue::integer(7))
    );
}

#[test]
fn set_and_push() {
    let mut object = CfgppValue::object();
    object.set("a", CfgppValue::integer(1)).unwrap();
    object.set("b", CfgppValue::integer(2)).unwrap();
    object.set("a", CfgppValue::integer(3)).unwrap();
    assert_eq!(object.len(), 2);
    assert_eq!(object.get("a"), Some(&CfgppValue::integer(3)));
    assert_eq!(object.as_object().unwrap()[0].0, "a");

    let mut array = CfgppValue::array();
    array.push(CfgppValue::integer(1)).unwrap();
    array.push(CfgppValue::integer(2)).unwrap();
    assert_eq!(array.get_index(1), Some(&CfgppValue::integer(2)));

    assert_eq!(
        array.set("a", CfgppValue::null()).unwrap_err(),
        CfgppError::TypeError { expected: "object".to_string(), actual: "array".to_string() }
    );
    assert_eq!(
        object.push(CfgppValue::null()).unwrap_err(),
        CfgppError::TypeError { expected: "array".to_string(), actual: "object".to_string() }
    );
    let mut scalar = CfgppValue::string("s");
    assert!(scalar.set("a", CfgppValue::null()).unwrap_err().is_type_error());
    assert_eq!(scalar, CfgppValue::string("s"));
}

#[test]
fn object_with_values_keeps_the_later_entry() {
    let object = CfgppValue::object_with_values(vec![
        ("a".to_string(), CfgppValue::integer(1)),
        ("b".to_string(), CfgppValue::integer(2)),
        ("a".to_string(), CfgppValue::integer(3)),
    ]);
    assert_eq!(object.len(), 2);
    assert_eq!(object.get("a"), Some(&CfgppValue::integer(3)));
    assert_eq!(object.get("b"), Some(&CfgppValue::integer(2)));
}

#[test]
fn clone_is_deep() {
    let value = sample();
    let mut copy = value.clone();
    assert_eq!(copy, value);
    copy.set("extra", CfgppValue::null()).unwrap();
    assert_ne!(copy, value);
    assert_eq!(value.len(), 4);
}

#[test]
fn error_constructors_and_texts() {
    let error = CfgppError::syntax_error("bad", 3, 14);
    assert!(error.is_syntax_error());
    assert!(!error.is_type_error());
    assert_eq!(error.line(), Some(3));
    assert_eq!(error.column(), Some(14));
    assert_eq!(error.to_text(), "Syntax error at line 3, column 14: bad");
    let error = CfgppError::type_error("object", "array");
    assert!(error.is_type_error());
    assert_eq!(error.line(), None);
    assert_eq!(error.column(), None);
    assert_eq!(error.to_text(), "Type error: expected object, found array");
    assert_eq!(CfgppError::key_not_found("k").to_text(), "Key not found: k");
    assert_eq!(CfgppError::index_out_of_bounds(120).to_text(), "Index out of bounds: 120");
    assert_eq!(CfgppError::index_out_of_bounds(0).to_text(), "Index out of bounds: 0");
    assert_eq!(CfgppError::io_error("gone").to_text(), "I/O error: gone");
    assert_eq!(CfgppError::parse_error("p").to_text(), "Parse error: p");
    assert_eq!(CfgppError::include_error("a.cfg", "m").to_text(), "Include error: a.cfg - m");
    assert_eq!(
        CfgppError::env_var_error("HOME", "m").to_text(),
        "Environment variable error: HOME - m"
    );
    assert_eq!(CfgppError::validation_error("v").to_text(), "Schema validation error: v");
    assert_eq!(
        CfgppError::MemoryError { message: "big".to_string() }.to_text(),
        "Memory error: big"
    );
    assert_eq!(
        CfgppError::index_out_of_bounds(usize::MAX).to_text(),
        format!("Index out of bounds: {}", usize::MAX)
    );
}

#[test]
fn equality_does_not_look_at_the_order_of_entries() {
    let mut a = CfgppValue::object();
    a.set("x", CfgppValue::integer(1)).unwrap();
    a.set("y", CfgppValue::array_with_values(vec![CfgppValue::string("s")])).unwrap();
    let mut b = CfgppValue::object();
    b.set("y", CfgppValue::array_with_values(vec![CfgppValue::string("s")])).unwrap();
    b.set("x", CfgppValue::integer(1)).unwrap();
    assert_eq!(a, b);
    assert_eq!(b, a);
    b.set("x", CfgppValue::integer(2)).unwrap();
    assert_ne!(a, b);
    let mut c = a.clone();
    c.set("z", CfgppValue::null()).unwrap();
    assert_ne!(a, c);
    assert_ne!(c, a);
    assert_ne!(
        CfgppValue::array_with_values(vec![CfgppValue::integer(1), CfgppValue::integer(2)]),
        CfgppValue::array_with_values(vec![CfgppValue::integer(2), CfgppValue::integer(1)])
    );
    assert_ne!(CfgppValue::string("a"), CfgppValue::enum_value("a"));
    assert_ne!(CfgppValue::integer(1), CfgppValue::double(1.0f64.to_bits()));
    assert_eq!(CfgppValue::double(0.0f64.to_bits()), CfgppValue::double((-0.0f64).to_bits()));
    assert_ne!(CfgppValue::double(f64::NAN.to_bits()), CfgppValue::double(f64::NAN.to_bits()));
    assert_eq!(CfgppValue::double(1.5f64.to_bits()), CfgppValue::double(1.5f64.to_bits()));
}

#[test]
fn conversions_into_values() {
    assert_eq!(CfgppValue::from(true), CfgppValue::Boolean(true));
    assert_eq!(CfgppValue::from(7i32), CfgppValue::Integer(7));
    assert_eq!(CfgppValue::from(-7i64), CfgppValue::Integer(-7));
    assert_eq!(CfgppValue::from("s"), CfgppValue::String("s".to_string()));
    assert_eq!(CfgppValue::from("s".to_string()), CfgppValue::String("s".to_string()));
    assert_eq!(CfgppValue::from(vec![CfgppValue::Null]).len(), 1);
}

#[test]
fn changing_in_place() {
    let mut value = sample();
    *value.get_mut("credentials").unwrap() = CfgppValue::integer(1);
    assert_eq!(value.get("credentials"), Some(&CfgppValue::integer(1)));
    assert!(value.get_mut("missing").is_none());
    assert!(value.get_index_mut(0).is_none());
    let servers = value.get_mut("servers").unwrap();
    *servers.get_index_mut(1).unwrap() = CfgppValue::null();
    assert!(servers.get_index_mut(2).is_none());
    servers.as_array_mut().unwrap().push(CfgppValue::boolean(false));
    assert!(servers.as_object_mut().is_none());
    assert_eq!(value.get_path("servers[1]"), Some(&CfgppValue::null()));
    assert_eq!(value.get_path("servers[2]"), Some(&CfgppValue::boolean(false)));
    value.as_object_mut().unwrap().clear();
    assert!(value.is_empty());
    assert!(value.as_array_mut().is_none());
}
