use nexus_core::json::{api_error, rows_from_value, JsonValue, Row};

fn s(t: &str) -> JsonValue {
    JsonValue::Str(t.to_string())
}

fn obj(members: Vec<(&str, JsonValue)>) -> JsonValue {
    JsonValue::Object(members.into_iter().map(|(k, v)| (k.to_string(), v)).collect(), "{...}".to_string())
}

#[test]
fn table_rows_extract_items() {
    let value = obj(vec![(
        "items",
        JsonValue::Array(
            vec![obj(vec![
                ("id", s("1")),
                ("name", s("dev")),
                ("state", s("running")),
                ("vcpu", JsonValue::Number("2".to_string())),
            ])],
            "[...]".to_string(),
        ),
    )]);
    let rows = rows_from_value(&value);
    assert_eq!(rows.len(), 1);
    assert_eq!(rows[0].name, "dev");
    assert_eq!(rows[0].details, "vcpu=2");
}

#[test]
fn fallback_keys_and_details() {
    let value = obj(vec![
        ("vm_id", s("abc")),
        ("username", s("root")),
        ("status", JsonValue::Null),
        ("role", s("admin")),
        ("protocol", s("tcp")),
        ("guest_ip", s("10.0.0.2")),
        ("host_addr", s("h1")),
        ("size_gb", JsonValue::Bool(true)),
    ]);
    let rows = rows_from_value(&value);
    assert_eq!(
        rows,
        vec![Row {
            id: "abc".to_string(),
            name: "root".to_string(),
            state: "admin".to_string(),
            kind: "tcp".to_string(),
            details: "host_addr=h1 guest_ip=10.0.0.2 size_gb=true".to_string(),
        }]
    );
}

#[test]
fn single_item_and_providers() {
    let one = obj(vec![("item", obj(vec![("name", s("x"))]))]);
    assert_eq!(rows_from_value(&one).len(), 1);
    let ps = obj(vec![("providers", JsonValue::Array(vec![obj(vec![]), obj(vec![])], "[{},{}]".to_string()))]);
    assert_eq!(rows_from_value(&ps).len(), 2);
}

#[test]
fn non_resources_print_no_rows() {
    assert!(rows_from_value(&obj(vec![("other", s("x"))])).is_empty());
    assert!(rows_from_value(&JsonValue::Array(vec![], "[]".to_string())).is_empty());
    let not_array = obj(vec![("items", s("nope")), ("name", s("n"))]);
    assert_eq!(rows_from_value(&not_array)[0].name, "n");
}

#[test]
fn nested_values_print_as_json() {
    let value = obj(vec![("id", JsonValue::Array(vec![], "[1,2]".to_string())), ("name", s(""))]);
    let rows = rows_from_value(&value);
    assert_eq!(rows[0].id, "[1,2]");
    assert_eq!(rows[0].name, "");
}

#[test]
fn api_errors_prefer_the_body_message() {
    assert_eq!(api_error("404 Not Found", "  \n", None), "API request failed with HTTP 404 Not Found");
    let body = obj(vec![("message", s("m")), ("error", s("vm not found"))]);
    assert_eq!(
        api_error("404 Not Found", "{...}", Some(&body)),
        "API request failed with HTTP 404 Not Found: vm not found"
    );
    let fault = obj(vec![("fault_message", s("bad config")), ("error", s("e"))]);
    assert_eq!(api_error("400 Bad Request", "x", Some(&fault)), "API request failed with HTTP 400 Bad Request: bad config");
    let not_text = obj(vec![("error", JsonValue::Number("5".to_string())), ("message", s("m"))]);
    assert_eq!(api_error("500 Internal Server Error", " raw ", Some(&not_text)), "API request failed with HTTP 500 Internal Server Error: raw");
    assert_eq!(api_error("502 Bad Gateway", "<html>", None), "API request failed with HTTP 502 Bad Gateway: <html>");
}
