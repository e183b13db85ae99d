use schema_infer::generator::{
    EmptyRegistry, ListRegistry, Schema, SchemaError, SchemaGenerator,
};
use schema_infer::json::Json;

fn s(x: &str) -> Json {
    Json::Str(x.to_string())
}

fn obj(fields: Vec<(&str, Json)>) -> Json {
    let mut out: Vec<(String, Json)> = Vec::new();
    for (k, v) in fields {
        out.push((k.to_string(), v));
    }
    Json::Obj(out)
}

fn prim(kind: &str) -> Json {
    obj(vec![("type", s(kind))])
}

fn schema(v: Json) -> Schema {
    Schema::try_from_value(v).unwrap()
}

fn create_test_generator() -> EmptyRegistry {
    EmptyRegistry
}

fn create_generator_with_mock(mock: &EmptyRegistry) -> SchemaGenerator<'_, EmptyRegistry> {
    SchemaGenerator { known_types: mock }
}

#[test]
fn test_generate_json_schema_string() {
    let mock_types = create_test_generator();
    let generator = create_generator_with_mock(&mock_types);
    let input = s("test");
    let result = generator.generate_schema(&input).unwrap();
    let expected = schema(prim("string"));
    assert_eq!(result, expected);
}

#[test]
fn test_generate_json_schema_integer() {
    let mock_types = create_test_generator();
    let generator = create_generator_with_mock(&mock_types);
    let input = Json::Int(42);
    let result = generator.generate_schema(&input).unwrap();
    let expected = schema(prim("integer"));
    assert_eq!(result, expected);
}

#[test]
fn test_generate_json_schema_number() {
    let mock_types = create_test_generator();
    let generator = create_generator_with_mock(&mock_types);
    let input = Json::Real((std::f32::consts::PI as f64).to_bits());
    let result = generator.generate_schema(&input).unwrap();
    let expected = schema(prim("number"));
    assert_eq!(result, expected);
}

#[test]
fn test_generate_json_schema_boolean() {
    let mock_types = create_test_generator();
    let generator = create_generator_with_mock(&mock_types);
    let input = Json::Bool(true);
    let result = generator.generate_schema(&input).unwrap();
    let expected = schema(prim("boolean"));
    assert_eq!(result, expected);
}

#[test]
fn test_generate_json_schema_null() {
    let mock_types = create_test_generator();
    let generator = create_generator_with_mock(&mock_types);
    let input = Json::Null;
    let result = generator.generate_schema(&input).unwrap();
    let expected = schema(prim("null"));
    assert_eq!(result, expected);
}

#[test]
fn test_generate_object_schema() {
    let mock_types = create_test_generator();
    let generator = create_generator_with_mock(&mock_types);
    let input = obj(vec![
        ("name", s("John Doe")),
        ("age", Json::Int(30)),
        ("is_student", Json::Bool(false)),
    ]);
    let result = generator.generate_schema(&input).unwrap();
    let expected = schema(obj(vec![
        ("type", s("object")),
        (
            "properties",
            obj(vec![
                ("name", prim("string")),
                ("age", prim("integer")),
                ("is_student", prim("boolean")),
            ]),
        ),
        (
            "required",
            Json::Arr(vec![s("age"), s("is_student"), s("name")]),
        ),
        ("$schema", s("http://json-schema.org/draft-07/schema#")),
    ]));
    assert_eq!(result, expected);
}

#[test]
fn test_generate_array_schema() {
    let mock_types = create_test_generator();
    let generator = create_generator_with_mock(&mock_types);
    let input = Json::Arr(vec![Json::Int(1), Json::Int(2), Json::Int(3)]);
    let result = generator.generate_schema(&input).unwrap();
    let expected = schema(obj(vec![("type", s("array")), ("items", prim("integer"))]));
    assert_eq!(result, expected);
}

#[test]
fn test_generate_array_schema_mixed_types() {
    let mock_types = create_test_generator();
    let generator = create_generator_with_mock(&mock_types);
    let input = Json::Arr(vec![
        Json::Int(1),
        s("two"),
        Json::Real((3.0f64).to_bits()),
    ]);
    let result = generator.generate_schema(&input).unwrap();
    let expected = schema(obj(vec![
        ("type", s("array")),
        (
            "items",
            obj(vec![(
                "oneOf",
                Json::Arr(vec![
                    obj(vec![(
                        "oneOf",
                        Json::Arr(vec![prim("integer"), prim("string")]),
                    )]),
                    prim("number"),
                ]),
            )]),
        ),
    ]));
    assert_eq!(result, expected);
}

#[test]
fn test_generate_array_schema_empty() {
    let mock_types = create_test_generator();
    let generator = create_generator_with_mock(&mock_types);
    let input = Json::Arr(vec![]);
    let result = generator.generate_schema(&input).unwrap();
    let expected = schema(obj(vec![("type", s("array")), ("items", obj(vec![]))]));
    assert_eq!(result, expected);
}

#[test]
fn test_find_common_schema() {
    let mock_types = create_test_generator();
    let generator = create_generator_with_mock(&mock_types);
    let schemas = vec![
        schema(prim("integer")),
        schema(prim("string")),
        schema(prim("boolean")),
    ];
    let result = generator.find_common_schema(&schemas).unwrap();
    let expected = schema(obj(vec![(
        "oneOf",
        Json::Arr(vec![
            obj(vec![(
                "oneOf",
                Json::Arr(vec![prim("integer"), prim("string")]),
            )]),
            prim("boolean"),
        ]),
    )]));
    assert_eq!(result, expected);
}

#[test]
fn test_merge_schemas_same_type() {
    let mock_types = create_test_generator();
    let generator = create_generator_with_mock(&mock_types);
    let schema1 = schema(obj(vec![
        ("type", s("object")),
        ("properties", obj(vec![("a", prim("string"))])),
    ]));
    let schema2 = schema(obj(vec![
        ("type", s("object")),
        ("properties", obj(vec![("b", prim("integer"))])),
    ]));
    let result = generator.merge_schemas(&schema1, &schema2).unwrap();
    let expected = schema(obj(vec![
        ("type", s("object")),
        (
            "properties",
            obj(vec![("a", prim("string")), ("b", prim("integer"))]),
        ),
    ]));
    assert_eq!(result, expected);
}

#[test]
fn test_merge_schemas_different_types() {
    let mock_types = create_test_generator();
    let generator = create_generator_with_mock(&mock_types);
    let schema1 = schema(prim("string"));
    let schema2 = schema(prim("integer"));
    let result = generator.merge_schemas(&schema1, &schema2).unwrap();
    let expected = schema(obj(vec![(
        "oneOf",
        Json::Arr(vec![prim("string"), prim("integer")]),
    )]));
    assert_eq!(result, expected);
}

#[test]
fn test_generate_schema_with_ref() {
    let mock_types = create_test_generator();
    let generator = create_generator_with_mock(&mock_types);
    let input = obj(vec![
        ("$ref", s("#/definitions/address")),
        (
            "address",
            obj(vec![("street", s("123 Main St")), ("city", s("New York"))]),
        ),
    ]);
    let result = generator.generate_schema(&input).unwrap();
    let expected = schema(obj(vec![
        ("type", s("object")),
        (
            "properties",
            obj(vec![(
                "address",
                obj(vec![
                    ("type", s("object")),
                    (
                        "properties",
                        obj(vec![("street", prim("string")), ("city", prim("string"))]),
                    ),
                    ("required", Json::Arr(vec![s("city"), s("street")])),
                ]),
            )]),
        ),
        ("required", Json::Arr(vec![s("address")])),
        ("$ref", s("#/definitions/address")),
        ("$schema", s("http://json-schema.org/draft-07/schema#")),
    ]));
    assert_eq!(result, expected);
}

#[test]
fn test_merge_schemas_idempotent() {
    let mock_types = create_test_generator();
    let generator = create_generator_with_mock(&mock_types);
    let value = obj(vec![
        ("type", s("object")),
        (
            "properties",
            obj(vec![("a", prim("string")), ("b", prim("integer"))]),
        ),
        ("required", Json::Arr(vec![s("a"), s("b")])),
    ]);
    let schema1 = schema(schema_infer::json::deep_copy(&value));
    let schema2 = schema(value);
    let result = generator.merge_schemas(&schema1, &schema2).unwrap();
    assert_eq!(result, schema1);
}

#[test]
fn test_merge_schemas_right_override() {
    let mock_types = create_test_generator();
    let generator = create_generator_with_mock(&mock_types);
    let schema1 = schema(obj(vec![
        ("type", s("object")),
        ("properties", obj(vec![("a", prim("string"))])),
    ]));
    let schema2 = schema(obj(vec![
        ("type", s("object")),
        (
            "properties",
            obj(vec![("a", prim("integer")), ("b", prim("integer"))]),
        ),
    ]));
    let result = generator.merge_schemas(&schema1, &schema2).unwrap();
    let expected = schema(obj(vec![
        ("type", s("object")),
        (
            "properties",
            obj(vec![("a", prim("integer")), ("b", prim("integer"))]),
        ),
    ]));
    assert_eq!(result, expected);
}

#[test]
fn test_required_sorted_and_duplicate_free() {
    let mock_types = create_test_generator();
    let generator = create_generator_with_mock(&mock_types);
    let input = obj(vec![
        ("delta", Json::Int(1)),
        ("alpha", Json::Int(2)),
        ("charlie", Json::Int(3)),
        ("bravo", Json::Int(4)),
    ]);
    let result = generator.generate_schema(&input).unwrap();
    let value = result.to_value();
    match &value {
        Json::Obj(fields) => {
            let required = fields
                .iter()
                .find(|(k, _)| k.as_str() == "required")
                .map(|(_, v)| v)
                .unwrap();
            let expected = Json::Arr(vec![s("alpha"), s("bravo"), s("charlie"), s("delta")]);
            assert_eq!(required, &expected);
        }
        _ => panic!("expected an object schema"),
    }
}

#[test]
fn test_nested_schema_marker_only_at_top() {
    let mock_types = create_test_generator();
    let generator = create_generator_with_mock(&mock_types);
    let input = obj(vec![(
        "outer",
        obj(vec![("inner", obj(vec![("leaf", Json::Int(1))]))]),
    )]);
    let result = generator.generate_schema(&input).unwrap();
    let value = result.to_value();
    fn count_marker(v: &Json) -> usize {
        match v {
            Json::Obj(fields) => {
                let mut n = 0;
                for (k, sub) in fields {
                    if k.as_str() == "$schema" {
                        n += 1;
                    }
                    n += count_marker(sub);
                }
                n
            }
            Json::Arr(items) => {
                let mut n = 0;
                for sub in items {
                    n += count_marker(sub);
                }
                n
            }
            _ => 0,
        }
    }
    assert_eq!(count_marker(&value), 1);
    match &value {
        Json::Obj(fields) => {
            assert!(fields.iter().any(|(k, _)| k.as_str() == "$schema"));
        }
        _ => panic!("expected an object schema"),
    }
}

#[test]
fn test_known_type_short_circuit() {
    let instance = obj(vec![("id", Json::Int(7))]);
    let known = schema(obj(vec![("type", s("object")), ("title", s("known thing"))]));
    let registry = ListRegistry {
        entries: vec![(
            schema_infer::json::deep_copy(&instance),
            schema(obj(vec![("type", s("object")), ("title", s("known thing"))])),
        )],
    };
    let generator = SchemaGenerator {
        known_types: &registry,
    };
    let result = generator.generate_schema(&instance).unwrap();
    // the registry's schema comes back unchanged: no $schema marker, no
    // properties, no required list
    assert_eq!(result, known);
}

#[test]
fn test_try_from_value_rejects_non_schema() {
    let result = Schema::try_from_value(Json::Null);
    assert_eq!(result.unwrap_err(), SchemaError::InvalidSchemaValue);
    let result2 = Schema::try_from_value(Json::Int(3));
    assert_eq!(result2.unwrap_err(), SchemaError::InvalidSchemaValue);
    assert!(Schema::try_from_value(Json::Bool(true)).is_ok());
    assert!(Schema::try_from_value(obj(vec![])).is_ok());
}

#[test]
fn test_integer_bounds_classification() {
    let mock_types = create_test_generator();
    let generator = create_generator_with_mock(&mock_types);
    let max = generator.generate_schema(&Json::Int(i64::MAX)).unwrap();
    assert_eq!(max, schema(prim("integer")));
    let min = generator.generate_schema(&Json::Int(i64::MIN)).unwrap();
    assert_eq!(min, schema(prim("integer")));
    let frac = generator.generate_schema(&Json::Real((2.5f64).to_bits())).unwrap();
    assert_eq!(frac, schema(prim("number")));
}

#[test]
fn test_merge_schemas_empty_properties_union() {
    let mock_types = create_test_generator();
    let generator = create_generator_with_mock(&mock_types);
    let schema1 = schema(obj(vec![
        ("type", s("object")),
        ("properties", obj(vec![])),
        ("title", s("left")),
    ]));
    let schema2 = schema(obj(vec![
        ("type", s("object")),
        ("properties", obj(vec![])),
        ("title", s("right")),
    ]));
    let result = generator.merge_schemas(&schema1, &schema2).unwrap();
    let expected = schema(obj(vec![(
        "oneOf",
        Json::Arr(vec![
            obj(vec![
                ("type", s("object")),
                ("properties", obj(vec![])),
                ("title", s("left")),
            ]),
            obj(vec![
                ("type", s("object")),
                ("properties", obj(vec![])),
                ("title", s("right")),
            ]),
        ]),
    )]));
    assert_eq!(result, expected);
}

#[test]
fn test_merge_schemas_no_type_tag_union() {
    let mock_types = create_test_generator();
    let generator = create_generator_with_mock(&mock_types);
    let schema1 = schema(obj(vec![("properties", obj(vec![("a", prim("string"))]))]));
    let schema2 = schema(obj(vec![("properties", obj(vec![("b", prim("integer"))]))]));
    let result = generator.merge_schemas(&schema1, &schema2).unwrap();
    let expected = schema(obj(vec![(
        "oneOf",
        Json::Arr(vec![
            obj(vec![("properties", obj(vec![("a", prim("string"))]))]),
            obj(vec![("properties", obj(vec![("b", prim("integer"))]))]),
        ]),
    )]));
    assert_eq!(result, expected);
}

#[test]
fn test_merge_schemas_reordered_content_equal() {
    let mock_types = create_test_generator();
    let generator = create_generator_with_mock(&mock_types);
    let schema1 = schema(obj(vec![
        ("type", s("object")),
        (
            "properties",
            obj(vec![("a", prim("string")), ("b", prim("integer"))]),
        ),
        ("required", Json::Arr(vec![s("a"), s("b")])),
    ]));
    let schema2 = schema(obj(vec![
        (
            "properties",
            obj(vec![("b", prim("integer")), ("a", prim("string"))]),
        ),
        ("required", Json::Arr(vec![s("a"), s("b")])),
        ("type", s("object")),
    ]));
    // same content in a different field order: the merge short-circuits
    // and keeps the left schema, required list included
    let result = generator.merge_schemas(&schema1, &schema2).unwrap();
    assert_eq!(result, schema1);
}

#[test]
fn test_array_of_reordered_objects_keeps_required() {
    let mock_types = create_test_generator();
    let generator = create_generator_with_mock(&mock_types);
    let input = Json::Arr(vec![
        obj(vec![("a", Json::Int(1)), ("b", Json::Int(2))]),
        obj(vec![("b", Json::Int(2)), ("a", Json::Int(1))]),
    ]);
    let result = generator.generate_schema(&input).unwrap();
    let expected = schema(obj(vec![
        ("type", s("array")),
        (
            "items",
            obj(vec![
                ("type", s("object")),
                (
                    "properties",
                    obj(vec![("a", prim("integer")), ("b", prim("integer"))]),
                ),
                ("required", Json::Arr(vec![s("a"), s("b")])),
            ]),
        ),
    ]));
    assert_eq!(result, expected);
}

#[test]
fn test_known_type_matches_reordered_instance() {
    let keyed = obj(vec![("a", Json::Int(1)), ("b", s("x"))]);
    let registry = ListRegistry {
        entries: vec![(
            keyed,
            schema(obj(vec![("type", s("object")), ("title", s("known thing"))])),
        )],
    };
    let generator = SchemaGenerator {
        known_types: &registry,
    };
    let query = obj(vec![("b", s("x")), ("a", Json::Int(1))]);
    let result = generator.generate_schema(&query).unwrap();
    let expected = schema(obj(vec![("type", s("object")), ("title", s("known thing"))]));
    assert_eq!(result, expected);
}
