use cfgpp::{
    CfgppError, CfgppValue, Constraint, FieldDefinition, Schema, TypeDefinition, ValidationError,
};

fn object(entries: Vec<(&str, CfgppValue)>) -> CfgppValue {
    CfgppValue::object_with_values(entries.into_iter().map(|(k, v)| (k.to_string(), v)).collect())
}

fn field(name: &str, ty: TypeDefinition, required: bool) -> (String, FieldDefinition) {
    (name.to_string(), FieldDefinition::new(ty, required))
}

fn finding(path: &str, message: &str, expected: Option<&str>, actual: Option<&str>) -> ValidationError {
    ValidationError {
        path: path.to_string(),
        message: message.to_string(),
        expected_type: expected.map(|s| s.to_string()),
        actual_type: actual.map(|s| s.to_string()),
    }
}

fn check(schema: &Schema, value: &CfgppValue) -> Vec<ValidationError> {
    match schema.validate(value) {
        Ok(()) => Vec::new(),
        Err(errors) => {
            assert!(!errors.is_empty());
            errors
        }
    }
}

fn rooted(ty: TypeDefinition) -> Schema {
    let mut schema = Schema::new();
    schema.set_root_schema(ty);
    schema
}

#[test]
fn test_basic_schema_validation() {
    let mut schema = Schema::new();

    schema.add_enum("Status".to_string(), vec!["active".to_string(), "inactive".to_string()]);

    let mut fields = Vec::new();
    fields.push(("name".to_string(), FieldDefinition::new(TypeDefinition::String, true)));
    fields.push((
        "status".to_string(),
        FieldDefinition::new(TypeDefinition::Enum("Status".to_string()), true),
    ));
    schema.add_object_schema("User".to_string(), fields);

    let mut user_obj = Vec::new();
    user_obj.push(("name".to_string(), CfgppValue::string("John")));
    user_obj.push(("status".to_string(), CfgppValue::enum_value("active")));
    let user_value = CfgppValue::object_with_values(user_obj);

    schema.set_root_schema(TypeDefinition::Object("User".to_string()));
    let result = schema.validate(&user_value);
    assert!(result.is_ok());
}

#[test]
fn test_schema_parsing() {
    let schema_text = r#"
        enum Status {
            active, inactive, pending
        }
        
        User {
            name: string;
            age: integer;
            status: Status;
        }
        "#;

    let schema = Schema::parse(schema_text).unwrap();

    assert!(schema.enum_values("Status").is_some());
    assert!(schema.object_fields("User").is_some());

    let status_values = schema.enum_values("Status").unwrap();
    assert_eq!(status_values.len(), 3);
    assert!(status_values.contains(&"active".to_string()));
}

#[test]
fn test_validation_errors() {
    let mut schema = Schema::new();

    let mut fields = Vec::new();
    fields.push(("required_field".to_string(), FieldDefinition::new(TypeDefinition::String, true)));
    schema.add_object_schema("Test".to_string(), fields);
    schema.set_root_schema(TypeDefinition::Object("Test".to_string()));

    let empty_obj = CfgppValue::object();
    let result = schema.validate(&empty_obj);

    assert!(result.is_err());
    let errors = result.unwrap_err();
    assert!(!errors.is_empty());
    assert!(errors[0].message.contains("Required field"));
}

#[test]
fn schema_text_is_read_line_by_line() {
    let text = "
        // a comment
        # another
        enum Status { active, inactive , , pending }
        enum Level {
            low,
            // not a value

            high, top
        }
        User {
            name: string;
            // comment: integer
            age : integer ;;
            tags: array<string>;
            nick: optional< string >
            deep: array<optional<array<double>>>;
            status: Status;
            flag: boolean;
            nothing: null;
            no colon here
            age: double;
        }
        Empty {
        }
        enumerated {
            x: integer
        }
        stray line
        ";
    let schema = Schema::parse(text).unwrap();
    let names = |v: &Vec<String>| v.iter().map(|s| s.as_str().to_string()).collect::<Vec<_>>();
    assert_eq!(names(schema.enum_values("Status").unwrap()), vec!["active", "inactive", "pending"]);
    assert_eq!(names(schema.enum_values("Level").unwrap()), vec!["low", "high", "top"]);
    assert!(schema.enum_values("User").is_none());
    let user = schema.object_fields("User").unwrap();
    let listed: Vec<(&str, &TypeDefinition)> =
        user.iter().map(|(n, f)| (n.as_str(), &f.field_type)).collect();
    assert_eq!(
        listed,
        vec![
            ("name", &TypeDefinition::String),
            ("age", &TypeDefinition::Double),
            ("tags", &TypeDefinition::Array(Box::new(TypeDefinition::String))),
            ("nick", &TypeDefinition::Optional(Box::new(TypeDefinition::String))),
            (
                "deep",
                &TypeDefinition::Array(Box::new(TypeDefinition::Optional(Box::new(
                    TypeDefinition::Array(Box::new(TypeDefinition::Double))
                ))))
            ),
            ("status", &TypeDefinition::Object("Status".to_string())),
            ("flag", &TypeDefinition::Boolean),
            ("nothing", &TypeDefinition::Null),
        ]
    );
    for (_, f) in user {
        assert!(f.required);
        assert!(f.default_value.is_none());
        assert!(f.constraints.is_empty());
    }
    assert_eq!(schema.object_fields("Empty").unwrap().len(), 0);
    assert!(schema.object_fields("enumerated").is_none());
    assert!(schema.object_fields("stray line").is_none());
    assert!(schema.root_schema().is_none());
}

#[test]
fn enum_line_without_brace_is_an_error() {
    assert_eq!(
        Schema::parse("enum Status\n{ a }").unwrap_err(),
        CfgppError::ParseError { message: "Invalid enum definition".to_string() }
    );
    assert!(Schema::parse("").unwrap().enum_values("x").is_none());
    let schema = Schema::parse("enum A { x }\nenum A { y }\nenum B {").unwrap();
    assert_eq!(schema.enum_values("A").unwrap(), &vec!["y".to_string()]);
    assert_eq!(schema.enum_values("B").unwrap().len(), 0);
}

#[test]
fn parsed_schema_validates_by_reference() {
    let mut schema = Schema::parse(
        "enum Status { active, inactive }\nUser {\n name: string;\n status: Status;\n home: Address;\n}\nAddress {\n city: string\n}\n",
    )
    .unwrap();
    schema.set_root_schema(TypeDefinition::Object("User".to_string()));
    let good = object(vec![
        ("name", CfgppValue::string("John")),
        ("status", CfgppValue::enum_value("active")),
        ("home", object(vec![("city", CfgppValue::string("Oslo"))])),
    ]);
    assert_eq!(check(&schema, &good), vec![]);
    let bad = object(vec![
        ("name", CfgppValue::string("John")),
        ("status", CfgppValue::enum_value("gone")),
        ("home", object(vec![("city", CfgppValue::integer(1))])),
    ]);
    assert_eq!(
        check(&schema, &bad),
        vec![
            finding(
                "status",
                "Invalid enum value 'gone', expected one of: active, inactive",
                Some("enum(Status)"),
                Some("enum(gone)")
            ),
            finding("home.city", "Type mismatch", Some("String"), Some("integer")),
        ]
    );
}

#[test]
fn primitives_match_exactly() {
    let samples = vec![
        (CfgppValue::null(), TypeDefinition::Null),
        (CfgppValue::boolean(true), TypeDefinition::Boolean),
        (CfgppValue::integer(1), TypeDefinition::Integer),
        (CfgppValue::double(1.0f64.to_bits()), TypeDefinition::Double),
        (CfgppValue::string("s"), TypeDefinition::String),
    ];
    for (i, (value, _)) in samples.iter().enumerate() {
        for (j, (_, ty)) in samples.iter().enumerate() {
            let errors = check(&rooted(ty.clone()), value);
            if i == j {
                assert_eq!(errors, vec![]);
            } else {
                assert_eq!(errors.len(), 1);
                assert_eq!(errors[0].message, "Type mismatch");
                assert_eq!(errors[0].path, "");
                assert_eq!(errors[0].actual_type.as_deref(), Some(value.kind_name()));
            }
        }
    }
    assert_eq!(
        check(&rooted(TypeDefinition::Integer), &CfgppValue::double(1.0f64.to_bits())),
        vec![finding("", "Type mismatch", Some("Integer"), Some("double"))]
    );
    assert_eq!(
        check(&rooted(TypeDefinition::String), &CfgppValue::enum_value("s")),
        vec![finding("", "Type mismatch", Some("String"), Some("enum"))]
    );
}

#[test]
fn union_accepts_a_member_and_aggregates_otherwise() {
    let union = TypeDefinition::Union(vec![TypeDefinition::String, TypeDefinition::Integer]);
    let mut schema = Schema::new();
    schema.add_object_schema("Holder".to_string(), vec![field("f", union.clone(), true)]);
    schema.set_root_schema(TypeDefinition::Object("Holder".to_string()));
    assert_eq!(check(&schema, &object(vec![("f", CfgppValue::string("s"))])), vec![]);
    assert_eq!(check(&schema, &object(vec![("f", CfgppValue::integer(5))])), vec![]);
    assert_eq!(
        check(&schema, &object(vec![("f", CfgppValue::boolean(true))])),
        vec![finding(
            "f",
            "Value does not match any type in union: [String, Integer]",
            Some("union([String, Integer])"),
            Some("boolean")
        )]
    );
    let nested = TypeDefinition::Union(vec![
        TypeDefinition::Array(Box::new(TypeDefinition::Integer)),
        TypeDefinition::Optional(Box::new(TypeDefinition::Object("Holder".to_string()))),
        TypeDefinition::Enum("E".to_string()),
        TypeDefinition::Union(vec![]),
    ]);
    let errors = check(&rooted(nested), &CfgppValue::array_with_values(vec![CfgppValue::null()]));
    assert_eq!(errors.len(), 1);
    assert_eq!(
        errors[0].message,
        "Value does not match any type in union: [Array(Integer), Optional(Object(\"Holder\")), Enum(\"E\"), Union([])]"
    );
    assert_eq!(check(&rooted(TypeDefinition::Union(vec![])), &CfgppValue::null()).len(), 1);
}

#[test]
fn unexpected_field_is_reported_beside_satisfied_fields() {
    let mut schema = Schema::new();
    schema.add_object_schema(
        "User".to_string(),
        vec![field("name", TypeDefinition::String, true), field("age", TypeDefinition::Integer, false)],
    );
    schema.set_root_schema(TypeDefinition::Object("User".to_string()));
    let value = object(vec![
        ("extra", CfgppValue::integer(1)),
        ("name", CfgppValue::string("John")),
        ("more", CfgppValue::array()),
    ]);
    assert_eq!(
        check(&schema, &value),
        vec![
            finding("extra", "Unexpected field 'extra'", None, Some("integer")),
            finding("more", "Unexpected field 'more'", None, Some("array")),
        ]
    );
}

#[test]
fn arrays_objects_and_paths() {
    let mut schema = Schema::new();
    schema.add_object_schema(
        "Server".to_string(),
        vec![field("name", TypeDefinition::String, true), field("port", TypeDefinition::Integer, true)],
    );
    schema.add_object_schema(
        "Root".to_string(),
        vec![field(
            "servers",
            TypeDefinition::Array(Box::new(TypeDefinition::Object("Server".to_string()))),
            true,
        )],
    );
    schema.set_root_schema(TypeDefinition::Object("Root".to_string()));
    let value = object(vec![(
        "servers",
        CfgppValue::array_with_values(vec![
            object(vec![("name", CfgppValue::string("a")), ("port", CfgppValue::integer(1))]),
            object(vec![("name", CfgppValue::integer(2))]),
            CfgppValue::integer(3),
        ]),
    )]);
    assert_eq!(
        check(&schema, &value),
        vec![
            finding("servers[1].name", "Type mismatch", Some("String"), Some("integer")),
            finding(
                "servers[1].port",
                "Required field 'port' is missing",
                Some("Integer"),
                None
            ),
            finding("servers[2]", "Type mismatch", Some("Object(\"Server\")"), Some("integer")),
        ]
    );
    assert_eq!(
        check(&rooted(TypeDefinition::Object("Nowhere".to_string())), &CfgppValue::object()),
        vec![finding(
            "",
            "Unknown object schema 'Nowhere'",
            Some("object(Nowhere)"),
            Some("object")
        )]
    );
    assert_eq!(
        check(&rooted(TypeDefinition::Enum("Nowhere".to_string())), &CfgppValue::enum_value("x")),
        vec![finding("", "Unknown enum type 'Nowhere'", Some("enum(Nowhere)"), Some("enum"))]
    );
    assert_eq!(
        check(
            &rooted(TypeDefinition::Array(Box::new(TypeDefinition::Integer))),
            &CfgppValue::array_with_values(vec![
                CfgppValue::integer(1),
                CfgppValue::null(),
                CfgppValue::string("x")
            ])
        ),
        vec![
            finding("[1]", "Type mismatch", Some("Integer"), Some("null")),
            finding("[2]", "Type mismatch", Some("Integer"), Some("string")),
        ]
    );
}

#[test]
fn optional_accepts_null() {
    let ty = TypeDefinition::Optional(Box::new(TypeDefinition::Integer));
    assert_eq!(check(&rooted(ty.clone()), &CfgppValue::null()), vec![]);
    assert_eq!(check(&rooted(ty.clone()), &CfgppValue::integer(1)), vec![]);
    assert_eq!(
        check(&rooted(ty), &CfgppValue::string("x")),
        vec![finding("", "Type mismatch", Some("Integer"), Some("string"))]
    );
}

#[test]
fn schema_without_root_accepts_everything() {
    let schema = Schema::new();
    let value = object(vec![(
        "a",
        CfgppValue::array_with_values(vec![object(vec![("b", CfgppValue::null())])]),
    )]);
    assert!(schema.validate(&value).is_ok());
    assert!(schema.validate(&CfgppValue::integer(1)).is_ok());
    assert!(Schema::default().validate(&value).is_ok());
}

fn constrained(ty: TypeDefinition, constraint: Constraint) -> FieldDefinition {
    FieldDefinition::new(ty, true).with_constraint(constraint)
}

fn field_findings(field: &FieldDefinition, value: &CfgppValue) -> Vec<ValidationError> {
    match Schema::new().validate_field(value, field, "f") {
        Ok(()) => Vec::new(),
        Err(errors) => errors,
    }
}

#[test]
fn length_constraints_count_bytes() {
    let min = constrained(TypeDefinition::String, Constraint::MinLength(3));
    assert_eq!(field_findings(&min, &CfgppValue::string("abc")), vec![]);
    assert_eq!(field_findings(&min, &CfgppValue::string("é")), vec![
        finding("f", "String length 2 is less than minimum 3", None, None)
    ]);
    assert_eq!(field_findings(&min, &CfgppValue::string("éa")), vec![]);
    assert_eq!(field_findings(&min, &CfgppValue::string("")), vec![
        finding("f", "String length 0 is less than minimum 3", None, None)
    ]);
    let max = constrained(TypeDefinition::String, Constraint::MaxLength(3));
    assert_eq!(field_findings(&max, &CfgppValue::string("abc")), vec![]);
    assert_eq!(field_findings(&max, &CfgppValue::string("日本")), vec![
        finding("f", "String length 6 exceeds maximum 3", None, None)
    ]);
}

#[test]
fn value_constraints_compare_doubles() {
    let min = constrained(TypeDefinition::Integer, Constraint::MinValue(10.0f64.to_bits()));
    assert_eq!(field_findings(&min, &CfgppValue::integer(10)), vec![]);
    assert_eq!(field_findings(&min, &CfgppValue::integer(9)), vec![
        finding("f", "Value is less than the minimum", None, None)
    ]);
    let max = constrained(TypeDefinition::Double, Constraint::MaxValue(0.5f64.to_bits()));
    assert_eq!(field_findings(&max, &CfgppValue::double(0.5f64.to_bits())), vec![]);
    assert_eq!(field_findings(&max, &CfgppValue::double((-7.0f64).to_bits())), vec![]);
    assert_eq!(field_findings(&max, &CfgppValue::double(0.75f64.to_bits())), vec![
        finding("f", "Value exceeds the maximum", None, None)
    ]);
    assert_eq!(field_findings(&max, &CfgppValue::double(f64::NAN.to_bits())), vec![]);
    let big = constrained(
        TypeDefinition::Integer,
        Constraint::MaxValue(9007199254740992.0f64.to_bits()),
    );
    assert_eq!(field_findings(&big, &CfgppValue::integer(9007199254740993)), vec![]);
    assert_eq!(field_findings(&big, &CfgppValue::integer(9007199254740995)).len(), 1);
}

#[test]
fn pattern_constraint_asks_a_full_match() {
    let pattern = constrained(TypeDefinition::String, Constraint::Pattern("[a-z]+".to_string()));
    assert_eq!(field_findings(&pattern, &CfgppValue::string("abc")), vec![]);
    assert_eq!(field_findings(&pattern, &CfgppValue::string("abc1")), vec![
        finding("f", "String 'abc1' does not match pattern [a-z]+", None, None)
    ]);
    assert_eq!(field_findings(&pattern, &CfgppValue::string("")).len(), 1);
    assert_eq!(field_findings(&pattern, &CfgppValue::string("[a-z]+")).len(), 1);
    let alternatives = constrained(TypeDefinition::String, Constraint::Pattern("a|ab".to_string()));
    assert_eq!(field_findings(&alternatives, &CfgppValue::string("ab")), vec![]);
    assert_eq!(field_findings(&alternatives, &CfgppValue::string("abc")).len(), 1);
    let broken = constrained(TypeDefinition::String, Constraint::Pattern("a)(b".to_string()));
    assert_eq!(field_findings(&broken, &CfgppValue::string("ab")).len(), 1);
    let unclosed = constrained(TypeDefinition::String, Constraint::Pattern("(".to_string()));
    assert_eq!(field_findings(&unclosed, &CfgppValue::string("(")).len(), 1);
}

#[test]
fn constraints_wait_for_the_type() {
    let field = FieldDefinition::new(TypeDefinition::String, true)
        .with_constraint(Constraint::MinLength(5))
        .with_constraint(Constraint::Pattern("x+".to_string()))
        .with_constraint(Constraint::Custom("host_check".to_string()))
        .with_constraint(Constraint::MinValue(1.0f64.to_bits()))
        .with_default(CfgppValue::string("xxxxx"));
    assert_eq!(field.constraints.len(), 4);
    assert_eq!(field.default_value, Some(CfgppValue::string("xxxxx")));
    assert_eq!(field_findings(&field, &CfgppValue::string("xxxxx")), vec![]);
    assert_eq!(field_findings(&field, &CfgppValue::string("ab")), vec![
        finding("f", "String length 2 is less than minimum 5", None, None),
        finding("f", "String 'ab' does not match pattern x+", None, None),
    ]);
    assert_eq!(field_findings(&field, &CfgppValue::enum_value("ab")), vec![
        finding("f", "Type mismatch", Some("String"), Some("enum"))
    ]);
    let text = field_findings(&field, &CfgppValue::integer(0))[0].to_text();
    assert_eq!(text, "Validation error at 'f': Type mismatch");
}

#[test]
fn odd_schema_texts_are_read_without_failing() {
    let schema = Schema::parse("User { a: string; }\n b: integer;\n}\nenum E } { x }\n y\n}").unwrap();
    let user = schema.object_fields("User").unwrap();
    assert_eq!(user.len(), 1);
    assert_eq!(user[0].0, "b");
    assert_eq!(schema.enum_values("E } {").is_none(), true);
    assert_eq!(schema.enum_values("E }").unwrap(), &vec!["x".to_string()]);
    let schema = Schema::parse("{\n: string\n x : array<\n : \n}").unwrap();
    let fields = schema.object_fields("").unwrap();
    let listed: Vec<(&str, &TypeDefinition)> =
        fields.iter().map(|(n, f)| (n.as_str(), &f.field_type)).collect();
    assert_eq!(
        listed,
        vec![
            ("", &TypeDefinition::Object("".to_string())),
            ("x", &TypeDefinition::Object("array<".to_string())),
        ]
    );
    let schema = Schema::parse("T {\n a: array<>;\n b: optional<>;\n c: array< integer >\n").unwrap();
    let fields = schema.object_fields("T").unwrap();
    assert_eq!(
        fields[0].1.field_type,
        TypeDefinition::Array(Box::new(TypeDefinition::Object("".to_string())))
    );
    assert_eq!(
        fields[1].1.field_type,
        TypeDefinition::Optional(Box::new(TypeDefinition::Object("".to_string())))
    );
    assert_eq!(fields[2].1.field_type, TypeDefinition::Array(Box::new(TypeDefinition::Integer)));
    assert_eq!(cfgpp::VERSION, "0.1.0");
}
