use oapi::bind::{append_typed_value, build_body_field, percent_encode, typed_value_from};
use oapi::jq::select;
use oapi::json::{compact_string, Json};
use oapi::output::{
    is_sensitive_name, print_headers_masked, print_json, print_response_body, print_text,
    print_url_masked,
};

fn st(t: &str) -> String {
    t.to_string()
}

fn num(t: &str) -> Json {
    Json::Number(t.to_string())
}

fn text(t: &str) -> Json {
    Json::Str(t.to_string())
}

fn obj(members: Vec<(&str, Json)>) -> Json {
    Json::Object(members.into_iter().map(|(k, v)| (k.to_string(), v)).collect())
}

/// {"a":{"b":[{"c":1},{"c":2}]}}
fn nested() -> Json {
    obj(vec![(
        "a",
        obj(vec![(
            "b",
            Json::Array(vec![obj(vec![("c", num("1"))]), obj(vec![("c", num("2"))])]),
        )]),
    )])
}

#[test]
fn test_basic() {
    let v = nested();
    assert_eq!(select(&v, "a.b[0].c"), vec![num("1")]);
    assert_eq!(select(&v, "a.b[].c"), vec![num("1"), num("2")]);
}

#[test]
fn select_star_index_and_misses() {
    let v = nested();
    assert_eq!(select(&v, "a.b[*].c"), vec![num("1"), num("2")]);
    assert_eq!(select(&v, "a.b[1]"), vec![obj(vec![("c", num("2"))])]);
    assert_eq!(select(&v, "a.b[+1].c"), vec![num("2")]);
    assert_eq!(select(&v, "a.b[5]"), Vec::<Json>::new());
    assert_eq!(select(&v, "a.b[x]"), Vec::<Json>::new());
    assert_eq!(select(&v, "a.nope"), Vec::<Json>::new());
    assert_eq!(select(&v, "a[0]"), Vec::<Json>::new());
}

#[test]
fn select_empty_path_gives_the_value() {
    let v = nested();
    assert_eq!(select(&v, ""), vec![nested()]);
    assert_eq!(select(&v, ".."), vec![nested()]);
}

#[test]
fn select_top_level_array() {
    let v = Json::Array(vec![
        obj(vec![("name", text("rex")), ("id", num("1"))]),
        obj(vec![("name", text("tom"))]),
    ]);
    assert_eq!(select(&v, "[].name"), vec![text("rex"), text("tom")]);
    assert_eq!(select(&v, "[].id"), vec![num("1")]);
}

#[test]
fn percent_encode_keeps_unreserved() {
    assert_eq!(percent_encode("AZaz09-_.~%"), "AZaz09-_.~%");
    assert_eq!(percent_encode(""), "");
}

#[test]
fn percent_encode_escapes_the_rest() {
    assert_eq!(percent_encode("a b/c"), "a%20b%2Fc");
    assert_eq!(percent_encode("é"), "%C3%A9");
    assert_eq!(percent_encode("?&="), "%3F%26%3D");
}

#[test]
fn percent_encoding_is_url_safe() {
    let out = percent_encode("x y\u{1}é/?#[]");
    assert!(out
        .bytes()
        .all(|b| b.is_ascii_alphanumeric() || b"-_.~%".contains(&b)));
}

#[test]
fn body_field_types_values() {
    assert_eq!(build_body_field("a", "3"), "\"a\":3");
    assert_eq!(build_body_field("a", "fluffy"), "\"a\":\"fluffy\"");
    assert_eq!(build_body_field("a", "[1, 2]"), "\"a\":[1,2]");
    assert_eq!(build_body_field("a", "{\"b\": null}"), "\"a\":{\"b\":null}");
    assert_eq!(build_body_field("a", "true"), "\"a\":true");
    assert_eq!(build_body_field("a", ""), "\"a\":\"\"");
    assert_eq!(build_body_field("q\"k", "1.50"), "\"q\\\"k\":1.5");
}

#[test]
fn append_typed_value_appends() {
    let mut s = st("{");
    append_typed_value(&mut s, " 7 ");
    assert_eq!(s, "{7");
    append_typed_value(&mut s, "tab\there");
    assert_eq!(s, "{7\"tab\\there\"");
}

#[test]
fn typed_value_from_given_reencoding() {
    assert_eq!(typed_value_from("x", None), "\"x\"");
    assert_eq!(typed_value_from("[1, 2]", Some(st("[1,2]"))), "[1,2]");
    assert_eq!(typed_value_from("line\n\u{1}", None), "\"line\\n\\u0001\"");
}

#[test]
fn sensitive_names() {
    for n in ["authorization", "Authorization", "signature", "SECRET", "key", "apikey"] {
        assert!(is_sensitive_name(n), "{}", n);
    }
    for n in ["X-Api-Key", "api_key", "aws_access_key_id", "X-Auth-Token", "refresh_token"] {
        assert!(is_sensitive_name(n), "{}", n);
    }
    for n in ["keyboard", "monkey", "token", "accept", "", "key-id-x", "authorizations"] {
        assert!(!is_sensitive_name(n), "{}", n);
    }
}

#[test]
fn sensitive_ignores_case_and_underscores() {
    assert_eq!(is_sensitive_name("X_API_KEY"), is_sensitive_name("x-api-key"));
    assert_eq!(is_sensitive_name("Session_Token"), is_sensitive_name("session-token"));
}

#[test]
fn url_query_values_masked() {
    assert_eq!(
        print_url_masked("GET", "https://h/p?a=1&api_key=s&flag&access_token=t"),
        "GET https://h/p?a=1&api_key=***&flag&access_token=***\n"
    );
    assert_eq!(print_url_masked("POST", "https://h/p"), "POST https://h/p\n");
    assert_eq!(print_url_masked("GET", "https://h/p?"), "GET https://h/p?\n");
    assert_eq!(print_url_masked("GET", "https://h/p?x=a=b"), "GET https://h/p?x=a=b\n");
}

#[test]
fn headers_masked() {
    let hs = vec![
        st("Authorization: Bearer abc"),
        st("X-Api-Key:secret"),
        st("Accept: application/json"),
        st("weird"),
    ];
    assert_eq!(
        print_headers_masked(&hs),
        "  Authorization: Bearer ***\n  X-Api-Key: ***\n  Accept: application/json\n  weird\n"
    );
    assert_eq!(print_headers_masked(&Vec::new()), "");
}

#[test]
fn text_output() {
    let v = Json::Array(vec![
        text("a"),
        num("1"),
        Json::Bool(true),
        Json::Null,
        obj(vec![("k", text("v"))]),
        Json::Array(vec![text("n"), Json::Bool(false)]),
    ]);
    assert_eq!(print_text(&v), "a\n1\ntrue\n{\"k\":\"v\"}\nn\nfalse\n");
    assert_eq!(print_text(&Json::Null), "");
}

#[test]
fn json_output_forms() {
    let v = obj(vec![("a", Json::Array(vec![num("1"), text("x"), Json::Null, obj(vec![])]))]);
    assert_eq!(print_json(&v, None, false), "{\"a\":[1,\"x\",null,{}]}\n");
    assert_eq!(print_json(&v, None, true), "{\"a\":[1,\"x\",null,{}]}\n");
    assert_eq!(print_json(&v, Some("a[]"), false), "1\nx\n{}\n");
    assert_eq!(print_json(&v, Some("a[]"), true), "1\nx\n{}\n");
    assert_eq!(print_json(&v, Some("nope"), false), "");
    let arr = Json::Array(vec![Json::Array(vec![text("p"), text("q")])]);
    assert_eq!(print_json(&arr, Some("[0]"), true), "p\nq\n");
    assert_eq!(print_json(&arr, Some("[0]"), false), "[\"p\",\"q\"]\n");
    assert_eq!(print_json(&text("s\"t"), None, false), "\"s\\\"t\"\n");
}

#[test]
fn response_body_output() {
    assert_eq!(print_response_body(None, "plain", None, false), "plain\n");
    assert_eq!(print_response_body(None, "line\n", None, false), "line\n");
    let v = obj(vec![("id", num("7"))]);
    assert_eq!(print_response_body(Some(&v), "{\"id\": 7}", None, false), "{\"id\":7}\n");
    assert_eq!(print_response_body(Some(&v), "{\"id\": 7}", Some("id"), false), "7\n");
}

#[test]
fn compact_text_of_values() {
    let v = obj(vec![
        ("s", text("a\\b\u{7f}")),
        ("n", num("-1.5e3")),
        ("l", Json::Array(vec![Json::Null, Json::Bool(false)])),
    ]);
    assert_eq!(compact_string(&v), "{\"s\":\"a\\\\b\u{7f}\",\"n\":-1.5e3,\"l\":[null,false]}");
}

#[test]
fn json_lookups() {
    let v = obj(vec![
        ("n", num("42")),
        ("neg", num("-1")),
        ("f", num("1.0")),
        ("max", num("18446744073709551615")),
        ("b", Json::Bool(true)),
        ("s", text("x")),
    ]);
    assert_eq!(v.get("n").and_then(|j| j.as_u64()), Some(42));
    assert_eq!(v.get("neg").and_then(|j| j.as_u64()), None);
    assert_eq!(v.get("f").and_then(|j| j.as_u64()), None);
    assert_eq!(v.get("max").and_then(|j| j.as_u64()), Some(u64::MAX));
    assert_eq!(v.get_bool("b"), Some(true));
    assert_eq!(v.get_bool("s"), None);
    assert_eq!(v.get_str("s").map(|s| s.as_str()), Some("x"));
    assert!(v.get("missing").is_none());
    assert!(v.is_object());
    assert!(!text("x").is_object());
}

#[test]
fn dotted_path_selects_from_each_selected_value() {
    let v = nested();
    let first = select(&v, "a.b[]");
    let each: Vec<Json> = first.iter().flat_map(|w| select(w, "c")).collect();
    assert_eq!(select(&v, "a.b[].c"), each);
    let first = select(&v, "a");
    let each: Vec<Json> = first.iter().flat_map(|w| select(w, "b[1].c")).collect();
    assert_eq!(select(&v, "a.b[1].c"), each);
    assert_eq!(each, vec![num("2")]);
}
