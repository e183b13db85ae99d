use schema_infer::json::Json;
use schema_infer::json_merge::merge;

fn s(x: &str) -> Json {
    Json::Str(x.to_string())
}

fn obj(fields: Vec<(&str, Json)>) -> Json {
    let mut out: Vec<(String, Json)> = Vec::new();
    for (k, v) in fields {
        out.push((k.to_string(), v));
    }
    Json::Obj(out)
}

#[test]
fn test_merge_objects_recursively() {
    let mut a = obj(vec![
        ("name", s("left")),
        ("nested", obj(vec![("x", Json::Int(1))])),
    ]);
    let b = obj(vec![
        ("nested", obj(vec![("y", Json::Int(2))])),
        ("extra", Json::Bool(true)),
    ]);
    merge(&mut a, &b);
    let expected = obj(vec![
        ("name", s("left")),
        ("nested", obj(vec![("x", Json::Int(1)), ("y", Json::Int(2))])),
        ("extra", Json::Bool(true)),
    ]);
    assert_eq!(a, expected);
}

#[test]
fn test_merge_skips_null_fields() {
    let mut a = obj(vec![("keep", s("value"))]);
    let b = obj(vec![("keep", Json::Null), ("other", Json::Null)]);
    merge(&mut a, &b);
    let expected = obj(vec![("keep", s("value"))]);
    assert_eq!(a, expected);
}

#[test]
fn test_merge_overrides_scalars() {
    let mut a = obj(vec![("n", Json::Int(1))]);
    let b = obj(vec![("n", Json::Int(2))]);
    merge(&mut a, &b);
    assert_eq!(a, obj(vec![("n", Json::Int(2))]));
}

#[test]
fn test_merge_non_object_replaces() {
    let mut a = obj(vec![("n", Json::Int(1))]);
    let b = Json::Arr(vec![Json::Int(9)]);
    merge(&mut a, &b);
    assert_eq!(a, Json::Arr(vec![Json::Int(9)]));

    let mut c = s("old");
    merge(&mut c, &Json::Bool(false));
    assert_eq!(c, Json::Bool(false));
}
