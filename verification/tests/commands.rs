use oapi::call::{add_body_header, parse_call_args, plan_call, BodySource};
use oapi::cli::{
    add_header, check_absolute, connect_fetched, check_connect_name, check_fetch_status, check_spec_paths, cmd_rm,
    cmd_sync, connect_dry_run_text, connect_report, dry_run_text, fetch_request, parse_command,
    parse_field,
    parse_global_args, parse_timeout, plan_api, schema_text, trim_trailing_slash, Command,
    GlobalOpts, DEFAULT_TIMEOUT_MS, MAX_HEADERS,
};
use oapi::http::{http_method, is_success, response_error, method_from_upper, request, split_header, HttpMethod};
use oapi::json::{compact_string, Json};
use oapi::registry::load;
use oapi::registry::Registry;

fn st(t: &str) -> String {
    t.to_string()
}

fn args(v: &[&str]) -> Vec<String> {
    v.iter().map(|a| a.to_string()).collect()
}

fn text(t: &str) -> Json {
    Json::Str(t.to_string())
}

fn obj(members: Vec<(&str, Json)>) -> Json {
    Json::Object(members.into_iter().map(|(k, v)| (k.to_string(), v)).collect())
}

fn param(name: &str, pin: &str, typ: Option<&str>) -> Json {
    match typ {
        Some(t) => obj(vec![
            ("in", text(pin)),
            ("name", text(name)),
            ("schema", obj(vec![("type", text(t))])),
        ]),
        None => obj(vec![("in", text(pin)), ("name", text(name))]),
    }
}

/// The petstore document the calls below run against.
fn petstore() -> Json {
    obj(vec![
        (
            "components",
            obj(vec![(
                "parameters",
                obj(vec![(
                    "PetId",
                    obj(vec![
                        ("in", text("path")),
                        ("name", text("petId")),
                        ("required", Json::Bool(true)),
                        ("schema", obj(vec![("type", text("string"))])),
                    ]),
                )]),
            )]),
        ),
        (
            "paths",
            obj(vec![
                (
                    "/pets",
                    obj(vec![
                        (
                            "get",
                            obj(vec![
                                ("operationId", text("listPets")),
                                (
                                    "parameters",
                                    Json::Array(vec![
                                        param("limit", "query", Some("integer")),
                                        param("verbose", "query", Some("boolean")),
                                        param("X-Trace", "header", None),
                                    ]),
                                ),
                                ("summary", text("List pets")),
                            ]),
                        ),
                        (
                            "post",
                            obj(vec![
                                ("operationId", text("createPet")),
                                ("requestBody", obj(vec![])),
                            ]),
                        ),
                    ]),
                ),
                (
                    "/pets/{petId}",
                    obj(vec![
                        (
                            "get",
                            obj(vec![
                                ("operationId", text("getPetById")),
                                ("summary", text("Info for a pet")),
                            ]),
                        ),
                        (
                            "parameters",
                            Json::Array(vec![obj(vec![(
                                "$ref",
                                text("#/components/parameters/PetId"),
                            )])]),
                        ),
                    ]),
                ),
            ]),
        ),
        ("servers", Json::Array(vec![obj(vec![("url", text("https://api.example.com/v1/"))])])),
    ])
}

fn petstore_entry() -> Registry {
    Registry {
        name: st("pets"),
        source: st("https://example.com/openapi.json"),
        fetched_at: 1,
        spec: petstore(),
        path: st("/h/apis/pets.json"),
    }
}

fn no_opts() -> GlobalOpts {
    GlobalOpts { headers: Vec::new(), dry_run: false, timeout_ms: DEFAULT_TIMEOUT_MS }
}

#[test]
fn timeouts() {
    assert!(parse_timeout("100"));
    assert!(parse_timeout("0"));
    assert!(parse_timeout("9999999999"));
    assert!(!parse_timeout("12345678901"));
    assert!(!parse_timeout(""));
    assert!(!parse_timeout("1a"));
    assert!(!parse_timeout("-1"));
    assert!(!parse_timeout("+1"));
}

#[test]
fn headers_checked_and_capped() {
    let mut hs = Vec::new();
    assert_eq!(add_header(&mut hs, ":x"), Err(st("invalid header ':x'")));
    assert_eq!(add_header(&mut hs, "nocolon"), Err(st("invalid header 'nocolon'")));
    assert!(hs.is_empty());
    for i in 0..MAX_HEADERS {
        assert_eq!(add_header(&mut hs, &format!("H{}: v", i)), Ok(()));
    }
    assert_eq!(hs.len(), 16);
    assert_eq!(add_header(&mut hs, "One: more"), Err(st("too many headers")));
    assert_eq!(hs.len(), 16);
    assert_eq!(hs[15], "H15: v");
}

#[test]
fn fields_split_at_first_equals() {
    let mut out = Vec::new();
    assert_eq!(parse_field(&mut out, "a=b=c"), Ok(()));
    assert_eq!(parse_field(&mut out, "empty="), Ok(()));
    assert_eq!(out, vec![(st("a"), st("b=c")), (st("empty"), st(""))]);
    assert_eq!(parse_field(&mut out, "=1"), Err(st("bad -F argument '=1' (want K=V)")));
    assert_eq!(parse_field(&mut out, "abc"), Err(st("bad -F argument 'abc' (want K=V)")));
    assert_eq!(out.len(), 2);
}

#[test]
fn trailing_slashes_trimmed() {
    assert_eq!(trim_trailing_slash("http://x///"), "http://x");
    assert_eq!(trim_trailing_slash("http://x"), "http://x");
    assert_eq!(trim_trailing_slash("///"), "");
}

#[test]
fn global_options() {
    let a = args(&["--dry-run", "--insecure", "--header", "A: b", "--header=C:d", "--timeout", "5", "ls", "--dry-run"]);
    let (opts, i) = parse_global_args(&a).unwrap();
    assert_eq!(i, 7);
    assert!(opts.dry_run);
    assert_eq!(opts.headers, vec![st("A: b"), st("C:d")]);
    assert_eq!(opts.timeout_ms, 5);
    let (opts, i) = parse_global_args(&Vec::new()).unwrap();
    assert_eq!(i, 0);
    assert!(!opts.dry_run && opts.headers.is_empty());
    assert_eq!(opts.timeout_ms, 30000);
    let (opts, _) = parse_global_args(&args(&["--timeout=0"])).unwrap();
    assert_eq!(opts.timeout_ms, 0);
}

#[test]
fn global_option_errors() {
    let e = |v: &[&str]| parse_global_args(&args(v)).err();
    assert_eq!(e(&["--timeout=abc"]), Some(st("invalid value for --timeout")));
    assert_eq!(e(&["--timeout"]), Some(st("invalid value for --timeout")));
    assert_eq!(e(&["--timeout", "12345678901"]), Some(st("invalid value for --timeout")));
    assert_eq!(e(&["--header"]), Some(st("missing value for --header")));
    assert_eq!(e(&["--header", "bad"]), Some(st("invalid header 'bad'")));
    assert_eq!(e(&["--header=:x"]), Some(st("invalid header ':x'")));
}

#[test]
fn commands_named() {
    let c = |v: &[&str]| parse_command(&args(v));
    assert!(matches!(c(&[]), Ok(Command::Usage)));
    assert!(matches!(c(&["ls"]), Ok(Command::Ls)));
    assert!(matches!(c(&["ls", "extra"]), Ok(Command::Ls)));
    assert!(matches!(c(&["connect", "p"]), Ok(Command::Usage)));
    match c(&["connect", "p", "u"]) {
        Ok(Command::Connect { name, source }) => assert_eq!((name.as_str(), source.as_str()), ("p", "u")),
        _ => panic!("connect"),
    }
    match c(&["sync", "p"]) {
        Ok(Command::Sync { name }) => assert_eq!(name, "p"),
        _ => panic!("sync"),
    }
    match c(&["rm", "p"]) {
        Ok(Command::Rm { name }) => assert_eq!(name, "p"),
        _ => panic!("rm"),
    }
    match c(&["schema", "p"]) {
        Ok(Command::Schema { name, operation }) => {
            assert_eq!(name, "p");
            assert!(operation.is_none());
        }
        _ => panic!("schema"),
    }
    match c(&["schema", "p", "op"]) {
        Ok(Command::Schema { operation, .. }) => assert_eq!(operation, Some(st("op"))),
        _ => panic!("schema op"),
    }
    assert!(matches!(c(&["schema", "p", "op", "x"]), Ok(Command::Usage)));
    match c(&["api", "p", "GET", "/x", "--data", "{}"]) {
        Ok(Command::Api { name, method, path, args_from }) => {
            assert_eq!((name.as_str(), method.as_str(), path.as_str(), args_from), ("p", "GET", "/x", 4));
        }
        _ => panic!("api"),
    }
    assert!(matches!(c(&["api", "p", "GET"]), Ok(Command::Usage)));
    match c(&["pets", "list-pets", "--limit", "1"]) {
        Ok(Command::Call { name, operation, args_from }) => {
            assert_eq!((name.as_str(), operation.as_str(), args_from), ("pets", "list-pets", 2));
        }
        _ => panic!("call"),
    }
    assert!(matches!(c(&["pets"]), Ok(Command::Usage)));
    assert_eq!(c(&["-v"]).err(), Some(st("invalid global option '-v'")));
}

#[test]
fn connect_checks() {
    assert_eq!(check_connect_name("pets"), Ok(()));
    assert_eq!(check_connect_name("bad/name"), Err(st("bad name 'bad/name'")));
    assert_eq!(connect_dry_run_text("p", "https://x/o.json"), "GET https://x/o.json\n  connect p\n");
    assert_eq!(check_spec_paths("s.json", &petstore()), Ok(()));
    assert_eq!(check_spec_paths("s.json", &obj(vec![])), Err(st("s.json: no paths object")));
    assert_eq!(
        connect_report("pets", "s.json", &petstore()),
        Ok(st("connected pets: 3 operations (source s.json)\n"))
    );
    let clash = obj(vec![(
        "paths",
        obj(vec![
            ("/a", obj(vec![("get", obj(vec![("operationId", text("getPet"))]))])),
            ("/b", obj(vec![("get", obj(vec![("operationId", text("get_pet"))]))])),
        ]),
    )]);
    assert_eq!(connect_report("p", "s", &clash), Err(st("kebab-case operationId collision")));
}

#[test]
fn sync_and_rm() {
    assert_eq!(cmd_sync(&petstore_entry()), Ok(st("https://example.com/openapi.json")));
    let mut r = petstore_entry();
    r.source = String::new();
    assert_eq!(cmd_sync(&r), Err(st("pets: registry entry has no source")));
    assert_eq!(cmd_rm("/h", "pets"), Ok(st("/h/apis/pets.json")));
    assert_eq!(cmd_rm("/h", ".."), Err(st("rm failed: bad name")));
}

#[test]
fn schema_listing_and_detail() {
    let spec = petstore();
    assert_eq!(
        schema_text(&spec, None),
        Ok(format!(
            "{:<28} {:<6} {:<28} {}\n{:<28} {:<6} {:<28} {}\n{:<28} {:<6} {:<28} {}\n",
            "list-pets", "GET", "/pets", "List pets",
            "create-pet", "POST", "/pets", "",
            "get-pet-by-id", "GET", "/pets/{petId}", "Info for a pet"
        ))
    );
    assert_eq!(
        schema_text(&spec, Some("get-pet-by-id")),
        Ok(st("GET /pets/{petId}  (getPetById)\n  Info for a pet\n  --pet-id  in:path type:string  (required)\n"))
    );
    assert_eq!(
        schema_text(&spec, Some("listPets")),
        Ok(st("GET /pets  (listPets)\n  List pets\n  --limit  in:query type:integer\n  --verbose  in:query type:boolean\n  --x-trace  in:header\n"))
    );
    assert_eq!(
        schema_text(&spec, Some("create-pet")),
        Ok(st("POST /pets  (createPet)\n  body: --body JSON | -F key=value\n"))
    );
    assert_eq!(schema_text(&spec, Some("nope")), Err(st("operation 'nope' not found")));
}

#[test]
fn dry_run_listing() {
    let hs = args(&["Authorization: Bearer t", "Accept: x"]);
    assert_eq!(
        dry_run_text("GET", "https://h/p?secret=1", &hs, Some("{}")),
        "GET https://h/p?secret=***\n  Authorization: Bearer ***\n  Accept: x\n  body: {}\n"
    );
    assert_eq!(dry_run_text("GET", "https://h/p", &Vec::new(), None), "GET https://h/p\n");
}

#[test]
fn absolute_urls_only() {
    assert_eq!(check_absolute("https://h/p"), Ok(()));
    assert_eq!(check_absolute("http://h"), Ok(()));
    assert_eq!(check_absolute("/v1/pets"), Err(st("base url '/v1/pets' is not absolute")));
}

#[test]
fn api_requests() {
    let r = petstore_entry();
    let p = plan_api(&r, "/pets", &args(&["--params", "limit=1", "--data", "{}"]), &no_opts()).unwrap();
    assert_eq!(p.url, "https://api.example.com/v1/pets?limit=1");
    assert_eq!(p.headers, vec![st("Content-Type: application/json")]);
    assert_eq!(p.data, Some(st("{}")));
    assert!(!p.dry_run);
    let p = plan_api(&r, "pets", &args(&["--dry-run", "--params=a=b", "--header=X: 1", "--timeout", "3"]), &no_opts()).unwrap();
    assert_eq!(p.url, "https://api.example.com/v1pets?a=b");
    assert_eq!(p.headers, vec![st("X: 1")]);
    assert!(p.dry_run && p.data.is_none());
}

#[test]
fn api_request_errors() {
    let r = petstore_entry();
    let e = |v: &[&str]| plan_api(&r, "/pets", &args(v), &no_opts()).err();
    assert_eq!(e(&["--nope"]), Some(st("unknown api option '--nope'")));
    assert_eq!(e(&["--params"]), Some(st("missing value for --params")));
    assert_eq!(e(&["--data"]), Some(st("missing value for --data")));
    assert_eq!(e(&["--params", "a\nb"]), Some(st("invalid raw query")));
    assert_eq!(e(&["--timeout", "x"]), Some(st("invalid value for --timeout")));
    let mut bare = petstore_entry();
    bare.spec = obj(vec![("paths", obj(vec![]))]);
    bare.source = st("o.json");
    assert_eq!(plan_api(&bare, "/x", &Vec::new(), &no_opts()).err(), Some(st("spec has no usable server url")));
}

#[test]
fn call_with_path_parameter() {
    let p = plan_call(&petstore_entry(), "get-pet-by-id", &args(&["a b"]), &no_opts()).unwrap();
    assert_eq!(p.method, "GET");
    assert_eq!(p.url, "https://api.example.com/v1/pets/a%20b");
    assert!(p.headers.is_empty());
    assert!(matches!(&p.body, BodySource::Inline(b) if b.is_empty()));
    assert!(!p.dry_run && !p.text_out && p.jq_path.is_none());
}

#[test]
fn call_with_flags() {
    let a = args(&["--limit", "10", "--verbose", "--x-trace", "abc", "--jq", "[].name", "-o", "text", "--dry-run"]);
    let p = plan_call(&petstore_entry(), "list-pets", &a, &no_opts()).unwrap();
    assert_eq!(p.url, "https://api.example.com/v1/pets?limit=10&verbose=true");
    assert_eq!(p.headers, vec![st("X-Trace: abc")]);
    assert_eq!(p.jq_path, Some(st("[].name")));
    assert!(p.text_out && p.dry_run);
    let p = plan_call(&petstore_entry(), "listPets", &args(&["--limit=a&b"]), &no_opts()).unwrap();
    assert_eq!(p.url, "https://api.example.com/v1/pets?limit=a%26b");
}

#[test]
fn call_with_fields_and_bodies() {
    let r = petstore_entry();
    let p = plan_call(&r, "create-pet", &args(&["-F", "name=fluffy", "-F", "age=3", "-F=tags=[1, 2]"]), &no_opts()).unwrap();
    assert_eq!(p.method, "POST");
    assert_eq!(p.url, "https://api.example.com/v1/pets");
    assert!(matches!(&p.body, BodySource::Inline(b) if b == "{\"name\":\"fluffy\",\"age\":3,\"tags\":[1,2]}"));
    let p = plan_call(&r, "create-pet", &args(&["--body", "@pet.json"]), &no_opts()).unwrap();
    assert!(matches!(&p.body, BodySource::File(f) if f == "pet.json"));
    let p = plan_call(&r, "create-pet", &args(&["--body=-"]), &no_opts()).unwrap();
    assert!(matches!(&p.body, BodySource::Stdin));
    let p = plan_call(&r, "create-pet", &args(&["--body", "{\"x\":1}"]), &no_opts()).unwrap();
    assert!(matches!(&p.body, BodySource::Inline(b) if b == "{\"x\":1}"));
}

#[test]
fn call_errors() {
    let r = petstore_entry();
    let e = |op: &str, v: &[&str]| plan_call(&r, op, &args(v), &no_opts()).err();
    assert_eq!(e("nope", &[]), Some(st("operation 'nope' not found")));
    assert_eq!(e("get-pet-by-id", &[]), Some(st("get-pet-by-id needs 1 positional path parameter(s), got 0")));
    assert_eq!(e("list-pets", &["x"]), Some(st("list-pets accepts 0 positional path parameter(s), got 1")));
    assert_eq!(e("list-pets", &["--nope", "1"]), Some(st("unknown flag --nope (see: oapi schema)")));
    assert_eq!(e("list-pets", &["--limit"]), Some(st("missing value for --limit")));
    assert_eq!(e("get-pet-by-id", &["1", "--pet-id", "2"]), Some(st("unknown flag --pet-id (see: oapi schema)")));
    assert_eq!(e("create-pet", &["--body", "{}", "-F", "a=1"]), Some(st("--body and -F are mutually exclusive")));
    assert_eq!(e("create-pet", &["-F"]), Some(st("missing value for -F")));
    assert_eq!(e("create-pet", &["-Fx"]), Some(st("bad -F argument '-Fx'")));
    assert_eq!(e("create-pet", &["-F", "x"]), Some(st("bad -F argument 'x' (want K=V)")));
    assert_eq!(e("create-pet", &["-o", "json"]), Some(st("-o supports 'text' only")));
    assert_eq!(e("create-pet", &["--jq"]), Some(st("missing value for --jq")));
    assert_eq!(e("create-pet", &["--body"]), Some(st("missing value for --body")));
}

#[test]
fn call_arguments_collected() {
    let opts = GlobalOpts { headers: args(&["A: 1"]), dry_run: false, timeout_ms: 5 };
    let c = parse_call_args(&args(&["7", "--flag=v", "--other", "--text", "--header", "B: 2"]), &opts).unwrap();
    assert_eq!(c.positionals, vec![st("7")]);
    assert_eq!(c.flag_names, vec![st("flag"), st("other")]);
    assert_eq!(c.flag_vals, vec![Some(st("v")), None]);
    assert!(c.text_out && !c.dry_run);
    assert_eq!(c.headers, args(&["A: 1", "B: 2"]));
}

#[test]
fn body_header_added_for_bodies() {
    let mut hs = Vec::new();
    assert_eq!(add_body_header(&mut hs, ""), Ok(()));
    assert!(hs.is_empty());
    assert_eq!(add_body_header(&mut hs, "{}"), Ok(()));
    assert_eq!(hs, vec![st("Content-Type: application/json")]);
    let mut full: Vec<String> = (0..16).map(|i| format!("H{}: v", i)).collect();
    assert_eq!(add_body_header(&mut full, "{}"), Err(st("too many headers")));
}

#[test]
fn statuses_and_methods() {
    assert!(is_success(200) && is_success(204) && is_success(299));
    assert!(!is_success(199) && !is_success(300) && !is_success(404));
    assert_eq!(http_method("get"), Some(HttpMethod::Get));
    assert_eq!(http_method("Options"), Some(HttpMethod::Options));
    assert_eq!(http_method("PaTcH"), Some(HttpMethod::Patch));
    assert_eq!(http_method("TRACE"), None);
    assert_eq!(method_from_upper("DELETE"), Some(HttpMethod::Delete));
    assert_eq!(method_from_upper("delete"), None);
}

#[test]
fn header_lines_split() {
    assert_eq!(split_header("Accept:   text/html "), (st("Accept"), st("text/html ")));
    assert_eq!(split_header("A:b:c"), (st("A"), st("b:c")));
    assert_eq!(split_header("NoColon"), (st("NoColon"), st("")));
}

#[test]
fn requests_prepared() {
    let req = request("delete", "https://x/p", &args(&["A: b", "C:d"]), "", 0).unwrap();
    assert_eq!(req.method, HttpMethod::Delete);
    assert_eq!(req.url, "https://x/p");
    assert_eq!(req.headers, vec![(st("A"), st("b")), (st("C"), st("d"))]);
    assert_eq!(req.body, "");
    assert_eq!(req.timeout_ms, 1);
    let req = request("post", "https://x/p", &Vec::new(), "{}", 250).unwrap();
    assert_eq!(req.method, HttpMethod::Post);
    assert_eq!((req.body.as_str(), req.timeout_ms), ("{}", 250));
    assert!(request("FETCH", "https://x/p", &Vec::new(), "", 1).is_none());
}

#[test]
fn documents_fetched_over_http_or_read_from_files() {
    let q = fetch_request("https://example.com/openapi.json").unwrap();
    assert_eq!(q.method, HttpMethod::Get);
    assert_eq!(q.url, "https://example.com/openapi.json");
    assert_eq!(q.headers, vec![(st("Accept"), st("application/json"))]);
    assert_eq!((q.body.as_str(), q.timeout_ms), ("", 30000));
    assert!(fetch_request("./openapi.json").is_none());
    assert!(fetch_request("ftp://x/o.json").is_none());
    assert_eq!(check_fetch_status("s", 200), Ok(()));
    assert_eq!(check_fetch_status("https://x/o.json", 404), Err(st("fetch https://x/o.json: HTTP 404")));
    assert_eq!(check_fetch_status("s", 302), Err(st("fetch s: HTTP 302")));
}

#[test]
fn call_timeout_governs_the_request() {
    let r = petstore_entry();
    let global = GlobalOpts { headers: Vec::new(), dry_run: false, timeout_ms: 5 };
    let p = plan_call(&r, "list-pets", &Vec::new(), &global).unwrap();
    assert_eq!(p.timeout_ms, 5);
    let p = plan_call(&r, "list-pets", &args(&["--timeout", "250"]), &global).unwrap();
    assert_eq!(p.timeout_ms, 250);
    let p = plan_call(&r, "list-pets", &args(&["--timeout", "250", "--timeout=7"]), &global).unwrap();
    assert_eq!(p.timeout_ms, 7);
    let c = parse_call_args(&args(&["--timeout=9999999999"]), &global).unwrap();
    assert_eq!(c.timeout_ms, 9999999999);
    assert_eq!(plan_call(&r, "list-pets", &args(&["--timeout=x"]), &global).err(), Some(st("invalid value for --timeout")));
}

#[test]
fn failed_response_errors() {
    assert_eq!(response_error(200, "ok"), None);
    assert_eq!(response_error(299, ""), None);
    assert_eq!(response_error(404, "not found"), Some(st("HTTP 404: not found")));
    let long = "a".repeat(600);
    assert_eq!(response_error(500, &long), Some(format!("HTTP 500: {}", "a".repeat(512))));
    let wide = "é".repeat(300);
    assert_eq!(response_error(503, &wide), Some(format!("HTTP 503: {}", "é".repeat(256))));
}

#[test]
fn connect_stores_then_reports() {
    let c = connect_fetched("pets", "s.json", &petstore(), 7).unwrap();
    assert_eq!(c.report, Ok(st("connected pets: 3 operations (source s.json)\n")));
    assert!(compact_string(&c.document).starts_with("{\"fetched_at\":7,\"source\":\"s.json\",\"spec\":{"));
    let r = load("pets", st("/h/apis/pets.json"), &c.document).unwrap();
    assert_eq!((r.name.as_str(), r.source.as_str(), r.fetched_at), ("pets", "s.json", 7));
    assert_eq!(r.spec, petstore());
    assert_eq!(connect_fetched("p", "s.json", &obj(vec![]), 7).err(), Some(st("s.json: no paths object")));
    let clash = obj(vec![(
        "paths",
        obj(vec![
            ("/a", obj(vec![("get", obj(vec![("operationId", text("getPet"))]))])),
            ("/b", obj(vec![("get", obj(vec![("operationId", text("get_pet"))]))])),
        ]),
    )]);
    let c = connect_fetched("p", "s", &clash, 1).unwrap();
    assert_eq!(c.report, Err(st("kebab-case operationId collision")));
    assert!(load("p", st("x"), &c.document).is_some());
}
