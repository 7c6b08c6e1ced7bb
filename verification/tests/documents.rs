use oapi::json::{compact_string, Json};
use oapi::openapi::{base_url, find_operation, kebab_case, operations, resolve_pointer};
use oapi::registry::{list, load, ls_text, remove, save, Registry};
use oapi::util::{api_path, apis_dir, oapi_home, valid_name};

fn st(t: &str) -> String {
    t.to_string()
}

fn num(t: &str) -> Json {
    Json::Number(t.to_string())
}

fn text(t: &str) -> Json {
    Json::Str(t.to_string())
}

fn obj(members: Vec<(&str, Json)>) -> Json {
    Json::Object(members.into_iter().map(|(k, v)| (k.to_string(), v)).collect())
}

/// A small petstore document, with object members in the order serde_json
/// keeps them (sorted by key).
fn petstore() -> Json {
    obj(vec![
        (
            "components",
            obj(vec![(
                "parameters",
                obj(vec![(
                    "PetId",
                    obj(vec![
                        ("in", text("path")),
                        ("name", text("petId")),
                        ("required", Json::Bool(true)),
                        ("schema", obj(vec![("type", text("string"))])),
                    ]),
                )]),
            )]),
        ),
        (
            "paths",
            obj(vec![
                (
                    "/pets",
                    obj(vec![
                        (
                            "get",
                            obj(vec![
                                ("operationId", text("listPets")),
                                (
                                    "parameters",
                                    Json::Array(vec![
                                        obj(vec![
                                            ("in", text("query")),
                                            ("name", text("limit")),
                                            ("schema", obj(vec![("type", text("integer"))])),
                                        ]),
                                        obj(vec![
                                            ("in", text("query")),
                                            ("name", text("verbose")),
                                            ("schema", obj(vec![("type", text("boolean"))])),
                                        ]),
                                        obj(vec![("in", text("header")), ("name", text("X-Trace"))]),
                                    ]),
                                ),
                                ("summary", text("List pets")),
                            ]),
                        ),
                        (
                            "post",
                            obj(vec![
                                ("operationId", text("createPet")),
                                ("requestBody", obj(vec![])),
                            ]),
                        ),
                    ]),
                ),
                (
                    "/pets/{petId}",
                    obj(vec![
                        (
                            "get",
                            obj(vec![
                                ("operationId", text("getPetById")),
                                ("summary", text("Info for a pet")),
                            ]),
                        ),
                        (
                            "parameters",
                            Json::Array(vec![obj(vec![(
                                "$ref",
                                text("#/components/parameters/PetId"),
                            )])]),
                        ),
                    ]),
                ),
            ]),
        ),
        ("servers", Json::Array(vec![obj(vec![("url", text("https://api.example.com/v1/"))])])),
    ])
}

#[test]
fn test_kebab() {
    assert_eq!(kebab_case("getPetById"), "get-pet-by-id");
    assert_eq!(kebab_case("getURLValue"), "get-url-value");
    assert_eq!(kebab_case("list_pets"), "list-pets");
    assert_eq!(kebab_case("simple"), "simple");
    assert_eq!(kebab_case("id_"), "id");
}

#[test]
fn kebab_edges() {
    assert_eq!(kebab_case("__Foo__Bar"), "foo-bar");
    assert_eq!(kebab_case("HTTPServer2Go"), "http-server2-go");
    assert_eq!(kebab_case("X-Trace"), "x-trace");
    assert_eq!(kebab_case("a b  c"), "a-b-c");
    assert_eq!(kebab_case("v2Pets"), "v2-pets");
    assert_eq!(kebab_case("---"), "");
    assert_eq!(kebab_case(""), "");
    // Bytes are taken one by one, so a multi-byte character comes out as
    // the characters of its bytes.
    assert_eq!(kebab_case("héLlo"), "h\u{c3}\u{a9}llo");
}

#[test]
fn kebab_shape() {
    for s in ["__A__b--C  d_", "ABCdefGHI", "x_-_y", "-Lead", "trail-"] {
        let k = kebab_case(s);
        assert!(!k.starts_with('-') && !k.ends_with('-') && !k.contains("--"), "{}", k);
        assert!(!k.chars().any(|c| c.is_ascii_uppercase() || c == '_' || c == ' '), "{}", k);
    }
}

#[test]
fn test_resolve_pointer() {
    let v = obj(vec![(
        "components",
        obj(vec![("schemas", obj(vec![("Pet", obj(vec![("type", text("object"))]))]))]),
    )]);
    let r = resolve_pointer(&v, "#/components/schemas/Pet").unwrap();
    assert_eq!(r.get("type").unwrap(), &text("object"));
    assert!(resolve_pointer(&v, "#/nope").is_none());
}

#[test]
fn resolve_pointer_escapes_and_shapes() {
    let v = obj(vec![("a/b", obj(vec![("~c", num("1"))]))]);
    assert_eq!(resolve_pointer(&v, "#/a~1b/~0c"), Some(num("1")));
    assert!(resolve_pointer(&v, "/a~1b").is_none());
    assert!(resolve_pointer(&v, "#/").is_none());
    assert!(resolve_pointer(&v, "#/a~1b/~0c/deeper").is_none());
}

#[test]
fn operations_of_petstore() {
    let ops = operations(&petstore());
    let ids: Vec<&str> = ops.iter().map(|o| o.op_id.as_str()).collect();
    assert_eq!(ids, vec!["listPets", "createPet", "getPetById"]);
    assert_eq!(ops[0].kebab, "list-pets");
    assert_eq!(ops[0].method, "GET");
    assert_eq!(ops[0].path, "/pets");
    assert_eq!(ops[0].summary, "List pets");
    assert_eq!(ops[0].params.len(), 3);
    assert!(!ops[0].has_body);
    assert_eq!(ops[1].method, "POST");
    assert!(ops[1].has_body);
    assert_eq!(ops[1].summary, "");
    assert_eq!(ops[2].path, "/pets/{petId}");
    assert_eq!(ops[2].params.len(), 1);
    assert_eq!(ops[2].params[0].get_str("name").map(|s| s.as_str()), Some("petId"));
}

#[test]
fn operation_parameters_merge() {
    // The operation's own parameter replaces the path-level one of the same
    // name and location; one without a name is dropped.
    let spec = obj(vec![(
        "paths",
        obj(vec![(
            "/x",
            obj(vec![
                (
                    "get",
                    obj(vec![
                        ("operationId", text("getX")),
                        (
                            "parameters",
                            Json::Array(vec![
                                obj(vec![
                                    ("description", text("op level")),
                                    ("in", text("query")),
                                    ("name", text("q")),
                                ]),
                                obj(vec![("in", text("query"))]),
                            ]),
                        ),
                    ]),
                ),
                ("parameters", Json::Array(vec![
                    obj(vec![("in", text("query")), ("name", text("q"))]),
                    obj(vec![("in", text("header")), ("name", text("q"))]),
                ])),
                ("put", obj(vec![("summary", text("no id"))])),
            ]),
        )]),
    )]);
    let ops = operations(&spec);
    assert_eq!(ops.len(), 1);
    assert_eq!(ops[0].params.len(), 2);
    assert_eq!(ops[0].params[0].get_str("description").map(|s| s.as_str()), Some("op level"));
    assert_eq!(ops[0].params[1].get_str("in").map(|s| s.as_str()), Some("header"));
}

#[test]
fn operations_of_odd_documents() {
    assert!(operations(&obj(vec![])).is_empty());
    assert!(operations(&obj(vec![("paths", Json::Array(vec![]))])).is_empty());
    assert!(operations(&obj(vec![("paths", obj(vec![("/a", num("1"))]))])).is_empty());
}

#[test]
fn find_operation_by_either_name() {
    let ops = operations(&petstore());
    assert_eq!(find_operation(&ops, "get-pet-by-id").map(|o| o.op_id.as_str()), Some("getPetById"));
    assert_eq!(find_operation(&ops, "createPet").map(|o| o.kebab.as_str()), Some("create-pet"));
    assert!(find_operation(&ops, "delete-pet").is_none());
}

#[test]
fn base_url_from_servers() {
    let spec = petstore();
    assert_eq!(base_url("pets.json", &spec), Some(st("https://api.example.com/v1/")));
    let rel = obj(vec![("servers", Json::Array(vec![obj(vec![("url", text("/v2"))])]))]);
    assert_eq!(base_url("https://ex.com/specs/o.json", &rel), Some(st("https://ex.com/v2")));
    assert_eq!(base_url("./o.json", &rel), Some(st("/v2")));
    let other = obj(vec![("servers", Json::Array(vec![obj(vec![("url", text("api.ex.com"))])]))]);
    assert_eq!(base_url("o.json", &other), Some(st("api.ex.com")));
}

#[test]
fn base_url_from_swagger_host() {
    let s1 = obj(vec![
        ("basePath", text("/api")),
        ("host", text("h.io")),
        ("schemes", Json::Array(vec![text("http")])),
    ]);
    assert_eq!(base_url("o.json", &s1), Some(st("http://h.io/api")));
    let s2 = obj(vec![("basePath", text("api")), ("host", text("h.io"))]);
    assert_eq!(base_url("o.json", &s2), Some(st("https://h.io/api")));
    let s3 = obj(vec![("host", text("h.io"))]);
    assert_eq!(base_url("http://x/s.json", &s3), Some(st("http://h.io")));
    let s4 = obj(vec![("host", text("h.io")), ("servers", Json::Array(vec![]))]);
    assert_eq!(base_url("o.json", &s4), Some(st("https://h.io")));
}

#[test]
fn base_url_from_source_or_none() {
    let empty = obj(vec![]);
    assert_eq!(base_url("https://ex.com/o.json", &empty), Some(st("https://ex.com/o.json")));
    assert_eq!(base_url("o.json", &empty), None);
    let blank = obj(vec![("servers", Json::Array(vec![obj(vec![("url", text(""))])]))]);
    assert_eq!(base_url("o.json", &blank), None);
}

#[test]
fn names_and_paths() {
    assert!(valid_name("pet-store_1"));
    assert!(valid_name(&"a".repeat(64)));
    assert!(!valid_name(&"a".repeat(65)));
    assert!(!valid_name(""));
    assert!(!valid_name("."));
    assert!(!valid_name(".."));
    assert!(!valid_name("a/b"));
    assert!(!valid_name("é"));
    assert_eq!(apis_dir("/h"), "/h/apis");
    assert_eq!(apis_dir("/h/"), "/h/apis");
    assert_eq!(api_path("/h", "pets"), Some(st("/h/apis/pets.json")));
    assert_eq!(api_path("/h", "../x"), None);
}

#[test]
fn home_directory_choice() {
    assert_eq!(oapi_home(Some("/x"), Some("/y"), Some("/z")), "/x");
    assert_eq!(oapi_home(None, Some("/y"), Some("/z")), "/y/oapi");
    assert_eq!(oapi_home(None, None, Some("/home/u")), "/home/u/.local/share/oapi");
    assert_eq!(oapi_home(None, None, None), "/tmp/oapi");
}

#[test]
fn remove_refuses_bad_names() {
    assert_eq!(remove("/h", "pets"), Ok(st("/h/apis/pets.json")));
    assert_eq!(remove("/h", "a b"), Err(st("bad name")));
}

#[test]
fn saved_document_reads_back() {
    let spec = obj(vec![("paths", obj(vec![]))]);
    let doc = save("https://ex.com/o.json", 1700000000, &spec);
    assert_eq!(
        compact_string(&doc),
        "{\"fetched_at\":1700000000,\"source\":\"https://ex.com/o.json\",\"spec\":{\"paths\":{}}}"
    );
    let r = load("pets", st("/h/apis/pets.json"), &doc).unwrap();
    assert_eq!(r.name, "pets");
    assert_eq!(r.source, "https://ex.com/o.json");
    assert_eq!(r.fetched_at, 1700000000);
    assert_eq!(r.spec, spec);
    assert_eq!(r.path, "/h/apis/pets.json");
}

#[test]
fn load_needs_source_fetched_at_and_spec() {
    let spec = obj(vec![]);
    let odd_time = obj(vec![("fetched_at", text("x")), ("source", text("s")), ("spec", obj(vec![]))]);
    assert_eq!(load("n", st("p"), &odd_time).map(|r| r.fetched_at), Some(0));
    let no_source = obj(vec![("fetched_at", num("1")), ("spec", obj(vec![]))]);
    assert!(load("n", st("p"), &no_source).is_none());
    let bad_source = obj(vec![("fetched_at", num("1")), ("source", num("2")), ("spec", obj(vec![]))]);
    assert!(load("n", st("p"), &bad_source).is_none());
    let no_time = obj(vec![("source", text("s")), ("spec", obj(vec![]))]);
    assert!(load("n", st("p"), &no_time).is_none());
    let no_spec = obj(vec![("fetched_at", num("1")), ("source", text("s"))]);
    assert!(load("n", st("p"), &no_spec).is_none());
    assert!(load("n", st("p"), &spec).is_none());
}

fn entry(name: &str, source: &str, spec: Json) -> Registry {
    Registry { name: st(name), source: st(source), fetched_at: 0, spec, path: st("") }
}

#[test]
fn listing_sorted_by_name() {
    let rows = list(vec![
        (st("zoo"), Some(entry("zoo", "https://z/o.json", petstore()))),
        (st("broken"), None),
        (st("empty"), Some(entry("empty", "e.json", obj(vec![])))),
    ]);
    let names: Vec<&str> = rows.iter().map(|r| r.name.as_str()).collect();
    assert_eq!(names, vec!["broken", "empty", "zoo"]);
    assert_eq!(rows[0].operations, 0);
    assert_eq!(rows[0].source, "(broken entry)");
    assert_eq!(rows[2].operations, 3);
    assert_eq!(
        ls_text(&rows),
        format!(
            "{:<16} {:>3} operations  {}\n{:<16} {:>3} operations  {}\n{:<16} {:>3} operations  {}\n",
            "broken", 0, "(broken entry)", "empty", 0, "e.json", "zoo", 3, "https://z/o.json"
        )
    );
}

#[test]
fn listing_empty_and_long_names() {
    assert_eq!(ls_text(&list(Vec::new())), "no APIs registered (oapi connect NAME SPEC)\n");
    let long = "a".repeat(20);
    let rows = list(vec![(long.clone(), None), (st("B"), None), (st("a"), None)]);
    let names: Vec<&str> = rows.iter().map(|r| r.name.as_str()).collect();
    assert_eq!(names, vec!["B", "a", long.as_str()]);
    assert!(ls_text(&rows).ends_with(&format!("{}   0 operations  (broken entry)\n", long)));
}

#[test]
fn kebab_keeps_letters_and_is_idempotent() {
    for s in ["getPetById", "getURLValue", "list_pets", "__A__b--C  d_", "HTTPServer2Go", "x", ""] {
        let k = kebab_case(s);
        assert_eq!(kebab_case(&k), k, "{}", s);
        let letters: String = s
            .chars()
            .filter(|c| !matches!(c, '_' | '-' | ' '))
            .map(|c| c.to_ascii_lowercase())
            .collect();
        assert_eq!(k.replace('-', ""), letters, "{}", s);
    }
}
