//! The command line: global options, headers, `oapi api`, `oapi schema`,
//! `oapi connect` and the `--dry-run` output.
use vstd::prelude::*;

use crate::json::{get, get_bool, get_str, Json, JsonV};
use crate::openapi::{
    base_url, base_url_spec, find_op, find_operation, kebab, kebab_case, op_views, operations,
    operations_spec, OperationV,
};
use crate::output::{masked_headers, masked_url, print_headers_masked, print_url_masked, views};
use crate::http::{success, HttpMethod, Request};
use crate::registry::{
    document, entry_of_document, lemma_document_round_trip, remove, save, Registry, RegistryV,
};
use crate::util::api_path_of;
use crate::text::{
    all_digits, chars_of, contains_char, decimal, decimal_string, digits_value, ends_with,
    first_index, has_prefix, has_suffix, is_digit, lemma_first_index, owned, pad_right,
    parse_digits, push_padded_right, push_str, starts_with, str_eq, strip_prefix, substring,
    trim_end_char, trim_end_of,
};

verus! {

broadcast use vstd::string::group_string_axioms;

/// The timeout used when none is given, in milliseconds.
pub const DEFAULT_TIMEOUT_MS: u64 = 30000;

/// The most headers a request may carry through `--header`.
pub const MAX_HEADERS: usize = 16;

// ---------------------------------------------------------------------------
// Headers, timeouts, fields
// ---------------------------------------------------------------------------

/// Why a header cannot be added to a list of `count` headers, if it cannot.
pub open spec fn header_problem(count: nat, h: Seq<char>) -> Option<Seq<char>> {
    if count >= 16 {
        Some("too many headers"@)
    } else if !h.contains(':') || starts_with(h, ":"@) {
        Some("invalid header '"@ + h + "'"@)
    } else {
        None
    }
}

/// `add_header` on the model: the list with `h` appended, or the error.
pub open spec fn header_add(hs: Seq<Seq<char>>, h: Seq<char>) -> Result<Seq<Seq<char>>, Seq<char>> {
    match header_problem(hs.len(), h) {
        Some(m) => Err(m),
        None => Ok(hs.push(h)),
    }
}

/// Adds a `Name: value` header; refused when 16 headers are already there or
/// when `h` has no `:` or starts with one.
pub fn add_header(headers: &mut Vec<String>, h: &str) -> (r: Result<(), String>)
    ensures
        match r {
            Ok(_) => header_add(views(old(headers)@), h@) == Ok::<
                Seq<Seq<char>>,
                Seq<char>,
            >(views(final(headers)@)),
            Err(m) => header_add(views(old(headers)@), h@) == Err::<Seq<Seq<char>>, Seq<char>>(
                m@,
            ) && final(headers)@ == old(headers)@,
        },
{
    if headers.len() >= MAX_HEADERS {
        return Err(owned("too many headers"));
    }
    if !contains_char(h, ':') || has_prefix(h, ":") {
        let mut m = owned("invalid header '");
        push_str(&mut m, h);
        push_str(&mut m, "'");
        return Err(m);
    }
    let ghost before = headers@;
    headers.push(owned(h));
    assert(views(headers@) =~= views(before).push(h@));
    Ok(())
}

/// Adding a header never takes a list past [`MAX_HEADERS`].
pub proof fn lemma_header_limit(hs: Seq<Seq<char>>, h: Seq<char>)
    requires
        hs.len() <= 16,
    ensures
        header_add(hs, h) matches Ok(out) ==> out.len() <= 16,
{
}

/// A `--timeout` value: one to ten decimal digits.
pub open spec fn timeout_ok(s: Seq<char>) -> bool {
    0 < s.len() <= 10 && all_digits(s)
}

pub fn parse_timeout(s: &str) -> (r: bool)
    ensures
        r == timeout_ok(s@),
{
    let v = chars_of(s);
    if v.len() == 0 || v.len() > 10 {
        return false;
    }
    let mut i: usize = 0;
    while i < v.len()
        invariant
            i <= v@.len(),
            v@ == s@,
            forall|k: int| 0 <= k < i ==> #[trigger] is_digit(v@[k]),
        decreases v.len() - i,
    {
        if !(v[i] >= '0' && v[i] <= '9') {
            assert(!is_digit(v@[i as int]));
            assert(!all_digits(s@));
            return false;
        }
        i += 1;
    }
    true
}

/// The value of a valid `--timeout` text.
pub fn timeout_value(s: &str) -> (r: u64)
    requires
        timeout_ok(s@),
    ensures
        r == digits_value(s@),
{
    let v = chars_of(s);
    assert(v@.subrange(0, v@.len() as int) =~= v@);
    proof {
        crate::text::lemma_digits_bound(v@);
    }
    match parse_digits(&v, 0, v.len(), u64::MAX) {
        Some(n) => n,
        None => 0,
    }
}

/// `-F key=value`: the pair split at the first `=`, which must exist and
/// must not be the first character.
pub open spec fn field_add(fields: Seq<(Seq<char>, Seq<char>)>, s: Seq<char>) -> Result<
    Seq<(Seq<char>, Seq<char>)>,
    Seq<char>,
> {
    let eq = first_index(s, '=');
    if eq >= s.len() || eq == 0 {
        Err("bad -F argument '"@ + s + "' (want K=V)"@)
    } else {
        Ok(fields.push((s.take(eq), s.skip(eq + 1))))
    }
}

pub open spec fn pair_views(v: Seq<(String, String)>) -> Seq<(Seq<char>, Seq<char>)> {
    Seq::new(v.len(), |i: int| (v[i].0@, v[i].1@))
}

pub fn parse_field(out: &mut Vec<(String, String)>, s: &str) -> (r: Result<(), String>)
    ensures
        match r {
            Ok(_) => field_add(pair_views(old(out)@), s@) == Ok::<
                Seq<(Seq<char>, Seq<char>)>,
                Seq<char>,
            >(pair_views(final(out)@)),
            Err(m) => field_add(pair_views(old(out)@), s@) == Err::<
                Seq<(Seq<char>, Seq<char>)>,
                Seq<char>,
            >(m@) && final(out)@ == old(out)@,
        },
{
    let v = chars_of(s);
    let eq = crate::text::find(&v, '=');
    proof {
        lemma_first_index(v@, '=');
    }
    if eq >= v.len() || eq == 0 {
        let mut m = owned("bad -F argument '");
        push_str(&mut m, s);
        push_str(&mut m, "' (want K=V)");
        return Err(m);
    }
    let k = substring(&v, 0, eq);
    let val = substring(&v, eq + 1, v.len());
    let ghost before = out@;
    out.push((k, val));
    assert(pair_views(out@) =~= pair_views(before).push((s@.take(eq as int), s@.skip(eq + 1))));
    Ok(())
}

/// `str::trim_end_matches('/')`.
pub fn trim_trailing_slash(s: &str) -> (r: String)
    ensures
        r@ == trim_end_char(s@, '/'),
{
    let v = chars_of(s);
    let n = trim_end_of(&v, '/');
    substring(&v, 0, n)
}

// ---------------------------------------------------------------------------
// Global options
// ---------------------------------------------------------------------------

/// Options given before the command.
pub struct GlobalOpts {
    pub headers: Vec<String>,
    pub dry_run: bool,
    pub timeout_ms: u64,
}

pub struct GlobalOptsV {
    pub headers: Seq<Seq<char>>,
    pub dry_run: bool,
    pub timeout_ms: u64,
}

impl View for GlobalOpts {
    type V = GlobalOptsV;

    open spec fn view(&self) -> GlobalOptsV {
        GlobalOptsV { headers: views(self.headers@), dry_run: self.dry_run, timeout_ms: self.timeout_ms }
    }
}

/// How one argument changes the global options: the new options and
/// whether it took the next argument too; `None` when it is not a global
/// option (and the command starts there).
pub open spec fn global_step(args: Seq<Seq<char>>, i: int, st: GlobalOptsV) -> Option<
    Result<(GlobalOptsV, bool), Seq<char>>,
> {
    let a = args[i];
    if a == "--dry-run"@ {
        Some(Ok((GlobalOptsV { headers: st.headers, dry_run: true, timeout_ms: st.timeout_ms }, false)))
    } else if a == "--insecure"@ {
        Some(Ok((st, false)))
    } else if a == "--header"@ {
        if i + 1 >= args.len() {
            Some(Err("missing value for --header"@))
        } else {
            match header_add(st.headers, args[i + 1]) {
                Err(m) => Some(Err(m)),
                Ok(hs) => Some(
                    Ok((GlobalOptsV { headers: hs, dry_run: st.dry_run, timeout_ms: st.timeout_ms }, true)),
                ),
            }
        }
    } else if starts_with(a, "--header="@) {
        match header_add(st.headers, a.skip("--header="@.len() as int)) {
            Err(m) => Some(Err(m)),
            Ok(hs) => Some(
                Ok((GlobalOptsV { headers: hs, dry_run: st.dry_run, timeout_ms: st.timeout_ms }, false)),
            ),
        }
    } else if a == "--timeout"@ {
        if i + 1 >= args.len() || !timeout_ok(args[i + 1]) {
            Some(Err("invalid value for --timeout"@))
        } else {
            Some(
                Ok((
                    GlobalOptsV {
                        headers: st.headers,
                        dry_run: st.dry_run,
                        timeout_ms: digits_value(args[i + 1]) as u64,
                    },
                    true,
                )),
            )
        }
    } else if starts_with(a, "--timeout="@) {
        let v = a.skip("--timeout="@.len() as int);
        if !timeout_ok(v) {
            Some(Err("invalid value for --timeout"@))
        } else {
            Some(
                Ok((
                    GlobalOptsV {
                        headers: st.headers,
                        dry_run: st.dry_run,
                        timeout_ms: digits_value(v) as u64,
                    },
                    false,
                )),
            )
        }
    } else {
        None
    }
}

/// The global options read from argument `i` on, and where the command starts.
pub open spec fn global_from(args: Seq<Seq<char>>, i: int, st: GlobalOptsV) -> Result<
    (GlobalOptsV, int),
    Seq<char>,
>
    decreases args.len() - i,
{
    if i < 0 || i >= args.len() {
        Ok((st, i))
    } else {
        match global_step(args, i, st) {
            None => Ok((st, i)),
            Some(Err(m)) => Err(m),
            Some(Ok((next, two))) => global_from(
                args,
                i + if two {
                    2int
                } else {
                    1int
                },
                next,
            ),
        }
    }
}

pub open spec fn default_opts() -> GlobalOptsV {
    GlobalOptsV { headers: Seq::empty(), dry_run: false, timeout_ms: 30000 }
}

/// Reads the global options at the front of `args`; the command starts at
/// the returned index.
pub fn parse_global_args(args: &Vec<String>) -> (r: Result<(GlobalOpts, usize), String>)
    ensures
        match r {
            Ok((o, i)) => global_from(views(args@), 0, default_opts()) == Ok::<
                (GlobalOptsV, int),
                Seq<char>,
            >((o@, i as int)),
            Err(m) => global_from(views(args@), 0, default_opts()) is Err && global_from(
                views(args@),
                0,
                default_opts(),
            )->Err_0 == m@,
        },
{
    let ghost a = views(args@);
    let mut opts = GlobalOpts { headers: Vec::new(), dry_run: false, timeout_ms: DEFAULT_TIMEOUT_MS };
    assert(opts@.headers =~= Seq::<Seq<char>>::empty());
    assert(opts@ == default_opts());
    let mut i: usize = 0;
    while i < args.len()
        invariant
            i <= args@.len(),
            a == views(args@),
            global_from(a, i as int, opts@) == global_from(a, 0, default_opts()),
        decreases args.len() - i,
    {
        let arg = args[i].as_str();
        let ghost st = opts@;
        assert(a[i as int] == arg@);
        if str_eq(arg, "--dry-run") {
            opts.dry_run = true;
            i += 1;
        } else if str_eq(arg, "--insecure") {
            i += 1;
        } else if str_eq(arg, "--header") {
            if i + 1 >= args.len() {
                return Err(owned("missing value for --header"));
            }
            assert(a[i + 1] == args@[i + 1]@);
            match add_header(&mut opts.headers, args[i + 1].as_str()) {
                Ok(_) => {},
                Err(m) => return Err(m),
            }
            i += 2;
        } else if let Some(v) = strip_prefix(arg, "--header=") {
            match add_header(&mut opts.headers, v.as_str()) {
                Ok(_) => {},
                Err(m) => return Err(m),
            }
            i += 1;
        } else if str_eq(arg, "--timeout") {
            if i + 1 >= args.len() || !parse_timeout(args[i + 1].as_str()) {
                return Err(owned("invalid value for --timeout"));
            }
            assert(a[i + 1] == args@[i + 1]@);
            opts.timeout_ms = timeout_value(args[i + 1].as_str());
            i += 2;
        } else if let Some(v) = strip_prefix(arg, "--timeout=") {
            if !parse_timeout(v.as_str()) {
                return Err(owned("invalid value for --timeout"));
            }
            opts.timeout_ms = timeout_value(v.as_str());
            i += 1;
        } else {
            return Ok((opts, i));
        }
    }
    Ok((opts, i))
}

// ---------------------------------------------------------------------------
// `oapi api NAME METHOD PATH`
// ---------------------------------------------------------------------------

pub struct ApiStateV {
    pub params: Option<Seq<char>>,
    pub data: Option<Seq<char>>,
    pub dry_run: bool,
    pub headers: Seq<Seq<char>>,
}

/// How one argument of `oapi api` changes its state, and whether it took the
/// next argument too.
pub open spec fn api_step(args: Seq<Seq<char>>, i: int, st: ApiStateV) -> Result<
    (ApiStateV, bool),
    Seq<char>,
> {
    let a = args[i];
    if a == "--dry-run"@ {
        Ok((ApiStateV { dry_run: true, ..st }, false))
    } else if a == "--insecure"@ {
        Ok((st, false))
    } else if a == "--params"@ {
        if i + 1 >= args.len() {
            Err("missing value for --params"@)
        } else {
            Ok((ApiStateV { params: Some(args[i + 1]), ..st }, true))
        }
    } else if starts_with(a, "--params="@) {
        Ok((ApiStateV { params: Some(a.skip("--params="@.len() as int)), ..st }, false))
    } else if a == "--data"@ {
        if i + 1 >= args.len() {
            Err("missing value for --data"@)
        } else {
            Ok((ApiStateV { data: Some(args[i + 1]), ..st }, true))
        }
    } else if starts_with(a, "--data="@) {
        Ok((ApiStateV { data: Some(a.skip("--data="@.len() as int)), ..st }, false))
    } else if a == "--header"@ {
        if i + 1 >= args.len() {
            Err("missing value for --header"@)
        } else {
            match header_add(st.headers, args[i + 1]) {
                Err(m) => Err(m),
                Ok(hs) => Ok((ApiStateV { headers: hs, ..st }, true)),
            }
        }
    } else if starts_with(a, "--header="@) {
        match header_add(st.headers, a.skip("--header="@.len() as int)) {
            Err(m) => Err(m),
            Ok(hs) => Ok((ApiStateV { headers: hs, ..st }, false)),
        }
    } else if a == "--timeout"@ {
        if i + 1 >= args.len() || !timeout_ok(args[i + 1]) {
            Err("invalid value for --timeout"@)
        } else {
            Ok((st, true))
        }
    } else {
        Err("unknown api option '"@ + a + "'"@)
    }
}

pub open spec fn api_from(args: Seq<Seq<char>>, i: int, st: ApiStateV) -> Result<ApiStateV, Seq<char>>
    decreases args.len() - i,
{
    if i < 0 || i >= args.len() {
        Ok(st)
    } else {
        match api_step(args, i, st) {
            Err(m) => Err(m),
            Ok((next, two)) => api_from(
                args,
                i + if two {
                    2int
                } else {
                    1int
                },
                next,
            ),
        }
    }
}

/// A raw request for `oapi api`.
pub struct ApiPlan {
    pub url: String,
    pub headers: Vec<String>,
    pub data: Option<String>,
    pub dry_run: bool,
}

pub struct ApiPlanV {
    pub url: Seq<char>,
    pub headers: Seq<Seq<char>>,
    pub data: Option<Seq<char>>,
    pub dry_run: bool,
}

impl View for ApiPlan {
    type V = ApiPlanV;

    open spec fn view(&self) -> ApiPlanV {
        ApiPlanV {
            url: self.url@,
            headers: views(self.headers@),
            data: match self.data {
                Some(d) => Some(d@),
                None => None,
            },
            dry_run: self.dry_run,
        }
    }
}

/// `base` without trailing slashes, followed by `path` (whose leading slash
/// is dropped if the base still ended in one).
pub open spec fn join_url(base: Seq<char>, path: Seq<char>) -> Seq<char> {
    let u = trim_end_char(base, '/');
    if starts_with(path, "/"@) && ends_with(u, "/"@) {
        u + path.skip(1)
    } else {
        u + path
    }
}

/// The request `oapi api` sends, or the error it stops with.
pub open spec fn api_plan(
    source: Seq<char>,
    spec: JsonV,
    path: Seq<char>,
    args: Seq<Seq<char>>,
    opts: GlobalOptsV,
) -> Result<ApiPlanV, Seq<char>> {
    let init = ApiStateV { params: None, data: None, dry_run: opts.dry_run, headers: opts.headers };
    match api_from(args, 0, init) {
        Err(m) => Err(m),
        Ok(st) => match base_url_spec(source, spec) {
            None => Err("spec has no usable server url"@),
            Some(b) => {
                let u = join_url(b, path);
                let url = match st.params {
                    Some(q) => if q.contains('\r') || q.contains('\n') {
                        None
                    } else {
                        Some(u + "?"@ + q)
                    },
                    None => Some(u),
                };
                match url {
                    None => Err("invalid raw query"@),
                    Some(url) => {
                        let hs = if st.data is Some {
                            header_add(st.headers, "Content-Type: application/json"@)
                        } else {
                            Ok(st.headers)
                        };
                        match hs {
                            Err(m) => Err(m),
                            Ok(headers) => Ok(
                                ApiPlanV { url, headers, data: st.data, dry_run: st.dry_run },
                            ),
                        }
                    },
                }
            },
        },
    }
}

pub open spec fn opt_seq(o: Option<String>) -> Option<Seq<char>> {
    match o {
        Some(s) => Some(s@),
        None => None,
    }
}

/// Works out the request of `oapi api` against the entry `r`.
pub fn plan_api(r: &Registry, path: &str, args: &Vec<String>, opts: &GlobalOpts) -> (res: Result<
    ApiPlan,
    String,
>)
    ensures
        match res {
            Ok(p) => api_plan(r.source@, r.spec@, path@, views(args@), opts@) == Ok::<
                ApiPlanV,
                Seq<char>,
            >(p@),
            Err(m) => api_plan(r.source@, r.spec@, path@, views(args@), opts@) == Err::<
                ApiPlanV,
                Seq<char>,
            >(m@),
        },
{
    let ghost a = views(args@);
    let ghost init = ApiStateV {
        params: None,
        data: None,
        dry_run: opts.dry_run,
        headers: opts@.headers,
    };
    let mut params: Option<String> = None;
    let mut data: Option<String> = None;
    let mut dry_run = opts.dry_run;
    let mut headers = clone_strings(&opts.headers);
    let mut i: usize = 0;
    while i < args.len()
        invariant
            i <= args@.len(),
            a == views(args@),
            init == (ApiStateV {
                params: None,
                data: None,
                dry_run: opts.dry_run,
                headers: opts@.headers,
            }),
            api_from(a, i as int, ApiStateV {
                params: opt_seq(params),
                data: opt_seq(data),
                dry_run,
                headers: views(headers@),
            }) == api_from(a, 0, init),
        decreases args.len() - i,
    {
        let arg = args[i].as_str();
        assert(a[i as int] == arg@);
        if str_eq(arg, "--dry-run") {
            dry_run = true;
            i += 1;
        } else if str_eq(arg, "--insecure") {
            i += 1;
        } else if str_eq(arg, "--params") {
            if i + 1 >= args.len() {
                return Err(owned("missing value for --params"));
            }
            assert(a[i + 1] == args@[i + 1]@);
            params = Some(args[i + 1].clone());
            i += 2;
        } else if let Some(v) = strip_prefix(arg, "--params=") {
            params = Some(v);
            i += 1;
        } else if str_eq(arg, "--data") {
            if i + 1 >= args.len() {
                return Err(owned("missing value for --data"));
            }
            assert(a[i + 1] == args@[i + 1]@);
            data = Some(args[i + 1].clone());
            i += 2;
        } else if let Some(v) = strip_prefix(arg, "--data=") {
            data = Some(v);
            i += 1;
        } else if str_eq(arg, "--header") {
            if i + 1 >= args.len() {
                return Err(owned("missing value for --header"));
            }
            assert(a[i + 1] == args@[i + 1]@);
            match add_header(&mut headers, args[i + 1].as_str()) {
                Ok(_) => {},
                Err(m) => return Err(m),
            }
            i += 2;
        } else if let Some(v) = strip_prefix(arg, "--header=") {
            match add_header(&mut headers, v.as_str()) {
                Ok(_) => {},
                Err(m) => return Err(m),
            }
            i += 1;
        } else if str_eq(arg, "--timeout") {
            if i + 1 >= args.len() || !parse_timeout(args[i + 1].as_str()) {
                return Err(owned("invalid value for --timeout"));
            }
            assert(a[i + 1] == args@[i + 1]@);
            i += 2;
        } else {
            let mut m = owned("unknown api option '");
            push_str(&mut m, arg);
            push_str(&mut m, "'");
            return Err(m);
        }
    }
    let ghost st = ApiStateV {
        params: opt_seq(params),
        data: opt_seq(data),
        dry_run,
        headers: views(headers@),
    };
    assert(api_from(a, 0, init) == Ok::<ApiStateV, Seq<char>>(st));
    let base = match base_url(r.source.as_str(), &r.spec) {
        Some(b) => b,
        None => return Err(owned("spec has no usable server url")),
    };
    let mut url = trim_trailing_slash(base.as_str());
    if has_prefix(path, "/") && has_suffix(url.as_str(), "/") {
        let pv = chars_of(path);
        proof {
            reveal_strlit("/");
        }
        let rest = substring(&pv, 1, pv.len());
        push_str(&mut url, rest.as_str());
    } else {
        push_str(&mut url, path);
    }
    match &params {
        Some(q) => {
            if contains_char(q.as_str(), '\r') || contains_char(q.as_str(), '\n') {
                return Err(owned("invalid raw query"));
            }
            push_str(&mut url, "?");
            push_str(&mut url, q.as_str());
        },
        None => {},
    }
    if data.is_some() {
        match add_header(&mut headers, "Content-Type: application/json") {
            Ok(_) => {},
            Err(m) => return Err(m),
        }
    }
    let plan = ApiPlan { url, headers, data, dry_run };
    assert(plan@.url =~= api_plan(r.source@, r.spec@, path@, a, opts@)->Ok_0.url);
    Ok(plan)
}

/// A copy of a list of strings.
pub fn clone_strings(v: &Vec<String>) -> (r: Vec<String>)
    ensures
        views(r@) == views(v@),
{
    let mut out: Vec<String> = Vec::new();
    let mut i: usize = 0;
    while i < v.len()
        invariant
            i <= v@.len(),
            views(out@) == views(v@).take(i as int),
        decreases v.len() - i,
    {
        let ghost before = out@;
        let c = v[i].clone();
        assert(c@ == v@[i as int]@);
        out.push(c);
        assert(views(out@) =~= views(before).push(c@));
        assert(views(out@) =~= views(v@).take(i + 1));
        i += 1;
    }
    assert(views(v@).take(v@.len() as int) =~= views(v@));
    out
}

// ---------------------------------------------------------------------------
// `--dry-run` and the checks around a request
// ---------------------------------------------------------------------------

/// What `--dry-run` prints: the masked request line, the masked headers and
/// the body, if any.
pub open spec fn dry_run_output(
    method: Seq<char>,
    url: Seq<char>,
    headers: Seq<Seq<char>>,
    body: Option<Seq<char>>,
) -> Seq<char> {
    masked_url(method, url) + masked_headers(headers) + match body {
        Some(b) => "  body: "@ + b + "\n"@,
        None => Seq::empty(),
    }
}

pub fn dry_run_text(method: &str, url: &str, headers: &Vec<String>, body: Option<&str>) -> (r:
    String)
    ensures
        r@ == dry_run_output(
            method@,
            url@,
            views(headers@),
            match body {
                Some(b) => Some(b@),
                None => None,
            },
        ),
{
    let mut out = print_url_masked(method, url);
    let hs = print_headers_masked(headers);
    push_str(&mut out, hs.as_str());
    match body {
        Some(b) => {
            push_str(&mut out, "  body: ");
            push_str(&mut out, b);
            push_str(&mut out, "\n");
        },
        None => {},
    }
    assert(out@ =~= dry_run_output(
        method@,
        url@,
        views(headers@),
        match body {
            Some(b) => Some(b@),
            None => None,
        },
    ));
    out
}

/// A request is only sent to an absolute `http://` or `https://` URL.
pub fn check_absolute(url: &str) -> (r: Result<(), String>)
    ensures
        match r {
            Ok(_) => crate::openapi::is_http(url@),
            Err(m) => !crate::openapi::is_http(url@) && m@ == "base url '"@ + url@
                + "' is not absolute"@,
        },
{
    if has_prefix(url, "http://") || has_prefix(url, "https://") {
        Ok(())
    } else {
        let mut m = owned("base url '");
        push_str(&mut m, url);
        push_str(&mut m, "' is not absolute");
        Err(m)
    }
}

// ---------------------------------------------------------------------------
// `oapi connect`, `oapi sync`
// ---------------------------------------------------------------------------

pub fn check_connect_name(name: &str) -> (r: Result<(), String>)
    ensures
        match r {
            Ok(_) => crate::util::is_valid_name(name),
            Err(m) => !crate::util::is_valid_name(name) && m@ == "bad name '"@ + name@ + "'"@,
        },
{
    if crate::util::valid_name(name) {
        Ok(())
    } else {
        let mut m = owned("bad name '");
        push_str(&mut m, name);
        push_str(&mut m, "'");
        Err(m)
    }
}

/// What `oapi --dry-run connect NAME SOURCE` prints.
pub fn connect_dry_run_text(name: &str, source: &str) -> (r: String)
    ensures
        r@ == "GET "@ + source@ + "\n  connect "@ + name@ + "\n"@,
{
    let mut out = owned("GET ");
    push_str(&mut out, source);
    push_str(&mut out, "\n  connect ");
    push_str(&mut out, name);
    push_str(&mut out, "\n");
    assert(out@ =~= "GET "@ + source@ + "\n  connect "@ + name@ + "\n"@);
    out
}

/// The request that fetches a document from an `http://` or `https://`
/// source (a `GET` asking for JSON, with the default timeout); `None` when
/// the source is a file.
pub fn fetch_request(source: &str) -> (r: Option<Request>)
    ensures
        match r {
            Some(q) => {
                &&& crate::openapi::is_http(source@)
                &&& q.method == HttpMethod::Get
                &&& q.url@ == source@
                &&& q.headers@.len() == 1
                &&& q.headers@[0].0@ == "Accept"@
                &&& q.headers@[0].1@ == "application/json"@
                &&& q.body@.len() == 0
                &&& q.timeout_ms == DEFAULT_TIMEOUT_MS
            },
            None => !crate::openapi::is_http(source@),
        },
{
    if check_absolute(source).is_ok() {
        let mut headers: Vec<(String, String)> = Vec::new();
        headers.push((owned("Accept"), owned("application/json")));
        Some(
            Request {
                method: HttpMethod::Get,
                url: owned(source),
                headers,
                body: String::new(),
                timeout_ms: DEFAULT_TIMEOUT_MS,
            },
        )
    } else {
        None
    }
}

/// A document is read from a 2xx response only.
pub fn check_fetch_status(source: &str, status: u16) -> (r: Result<(), String>)
    ensures
        match r {
            Ok(_) => success(status),
            Err(m) => !success(status) && m@ == "fetch "@ + source@ + ": HTTP "@ + decimal(
                status as nat,
            ),
        },
{
    if 200 <= status && status < 300 {
        Ok(())
    } else {
        let mut m = owned("fetch ");
        push_str(&mut m, source);
        push_str(&mut m, ": HTTP ");
        crate::text::push_decimal(&mut m, status as u64);
        Err(m)
    }
}

/// A fetched document is kept only if it has `paths`.
pub fn check_spec_paths(source: &str, spec: &Json) -> (r: Result<(), String>)
    ensures
        match r {
            Ok(_) => get(spec@, "paths"@) is Some,
            Err(m) => get(spec@, "paths"@) is None && m@ == source@ + ": no paths object"@,
        },
{
    if spec.get("paths").is_none() {
        let mut m = owned(source);
        push_str(&mut m, ": no paths object");
        Err(m)
    } else {
        Ok(())
    }
}

/// Two operations with the same command name.
pub open spec fn has_kebab_collision(ops: Seq<OperationV>) -> bool {
    exists|i: int, j: int| #![trigger ops[i], ops[j]] 0 <= i < j < ops.len() && ops[i].kebab == ops[j].kebab
}

/// The report of `oapi connect` after the document was saved: refused when
/// two operations map to the same command name.
pub open spec fn connect_report_spec(name: Seq<char>, source: Seq<char>, spec: JsonV) -> Result<
    Seq<char>,
    Seq<char>,
> {
    let ops = operations_spec(spec);
    if has_kebab_collision(ops) {
        Err("kebab-case operationId collision"@)
    } else {
        Ok(
            "connected "@ + name + ": "@ + decimal(ops.len()) + " operations (source "@ + source
                + ")\n"@,
        )
    }
}

pub fn connect_report(name: &str, source: &str, spec: &Json) -> (r: Result<String, String>)
    ensures
        match r {
            Ok(s) => connect_report_spec(name@, source@, spec@) == Ok::<Seq<char>, Seq<char>>(s@),
            Err(m) => connect_report_spec(name@, source@, spec@) == Err::<Seq<char>, Seq<char>>(
                m@,
            ),
        },
{
    let ops = operations(spec);
    let ghost os = op_views(ops@);
    let mut i: usize = 0;
    while i < ops.len()
        invariant
            i <= ops@.len(),
            os == op_views(ops@),
            os == operations_spec(spec@),
            forall|x: int, y: int| 0 <= x < y < ops@.len() && x < i ==> os[x].kebab != os[y].kebab,
        decreases ops.len() - i,
    {
        let mut j: usize = i + 1;
        while j < ops.len()
            invariant
                i < ops@.len(),
                i < j <= ops@.len(),
                os == op_views(ops@),
                os == operations_spec(spec@),
                forall|x: int, y: int|
                    0 <= x < y < ops@.len() && x < i ==> os[x].kebab != os[y].kebab,
                forall|y: int| i < y < j ==> os[i as int].kebab != os[y].kebab,
            decreases ops.len() - j,
        {
            if str_eq(ops[i].kebab.as_str(), ops[j].kebab.as_str()) {
                assert(os[i as int].kebab == os[j as int].kebab);
                assert(has_kebab_collision(os));
                return Err(owned("kebab-case operationId collision"));
            }
            j += 1;
        }
        i += 1;
    }
    let mut out = owned("connected ");
    push_str(&mut out, name);
    push_str(&mut out, ": ");
    let n = decimal_string(ops.len() as u64);
    push_str(&mut out, n.as_str());
    push_str(&mut out, " operations (source ");
    push_str(&mut out, source);
    push_str(&mut out, ")\n");
    assert(out@ =~= connect_report_spec(name@, source@, spec@)->Ok_0);
    Ok(out)
}

/// What `oapi connect` makes of a fetched document: the document to store
/// and the report to give once it is stored.
pub struct Connection {
    pub document: Json,
    pub report: Result<String, String>,
}

/// A fetched document is refused without `paths`; otherwise it is stored (as
/// the entry `name`, fetched from `source` at `fetched_at`) and the report
/// follows, refused when two operations share a command name.
pub fn connect_fetched(name: &str, source: &str, spec: &Json, fetched_at: u64) -> (r: Result<
    Connection,
    String,
>)
    ensures
        match r {
            Ok(c) => {
                &&& get(spec@, "paths"@) is Some
                &&& c.document@ == document(source@, fetched_at, spec@)
                &&& forall|path: Seq<char>|
                    entry_of_document(name@, path, #[trigger] c.document@) == Some(
                        RegistryV { name: name@, source: source@, fetched_at, spec: spec@, path },
                    )
                &&& match c.report {
                    Ok(t) => connect_report_spec(name@, source@, spec@) == Ok::<
                        Seq<char>,
                        Seq<char>,
                    >(t@),
                    Err(m) => connect_report_spec(name@, source@, spec@) == Err::<
                        Seq<char>,
                        Seq<char>,
                    >(m@),
                }
            },
            Err(m) => get(spec@, "paths"@) is None && m@ == source@ + ": no paths object"@,
        },
{
    match check_spec_paths(source, spec) {
        Err(m) => Err(m),
        Ok(_) => {
            let doc = save(source, fetched_at, spec);
            let report = connect_report(name, source, spec);
            proof {
                assert forall|path: Seq<char>|
                    entry_of_document(name@, path, #[trigger] doc@) == Some(
                        RegistryV { name: name@, source: source@, fetched_at, spec: spec@, path },
                    ) by {
                    lemma_document_round_trip(name@, path, source@, fetched_at, spec@);
                }
            }
            Ok(Connection { document: doc, report })
        },
    }
}

/// `oapi sync` needs the source the entry was fetched from.
pub fn cmd_sync(r: &Registry) -> (res: Result<String, String>)
    ensures
        match res {
            Ok(s) => s@ == r.source@ && r.source@.len() > 0,
            Err(m) => r.source@.len() == 0 && m@ == r.name@ + ": registry entry has no source"@,
        },
{
    if r.source.as_str().is_empty() {
        let mut m = r.name.clone();
        push_str(&mut m, ": registry entry has no source");
        Err(m)
    } else {
        Ok(r.source.clone())
    }
}

/// `oapi rm NAME`: the file to delete, or the message for a bad name.
pub fn cmd_rm(home: &str, name: &str) -> (res: Result<String, String>)
    ensures
        match res {
            Ok(p) => api_path_of(home@, name) == Some(p@),
            Err(m) => api_path_of(home@, name) is None && m@ == "rm failed: bad name"@,
        },
{
    match remove(home, name) {
        Ok(p) => Ok(p),
        Err(e) => {
            let mut m = owned("rm failed: ");
            push_str(&mut m, e.as_str());
            proof {
                reveal_strlit("rm failed: ");
                reveal_strlit("bad name");
                reveal_strlit("rm failed: bad name");
            }
            assert(m@ =~= "rm failed: bad name"@);
            Err(m)
        },
    }
}

// ---------------------------------------------------------------------------
// `oapi schema NAME [OPERATION]`
// ---------------------------------------------------------------------------

/// One line of the operation table.
pub open spec fn op_line(o: OperationV) -> Seq<char> {
    pad_right(o.kebab, 28) + " "@ + pad_right(o.method, 6) + " "@ + pad_right(o.path, 28) + " "@
        + o.summary + "\n"@
}

pub open spec fn op_table(ops: Seq<OperationV>) -> Seq<char>
    decreases ops.len(),
{
    if ops.len() == 0 {
        Seq::empty()
    } else {
        op_table(ops.drop_last()) + op_line(ops.last())
    }
}

pub open spec fn str_or(v: Option<Seq<char>>, d: Seq<char>) -> Seq<char> {
    match v {
        Some(s) => s,
        None => d,
    }
}

/// The type shown for a parameter: `schema.type` when the schema has a
/// `type`, else the parameter's own `type`; empty unless it is a string.
pub open spec fn param_type_shown(p: JsonV) -> Seq<char> {
    let t = match get(p, "schema"@) {
        Some(s) => match get(s, "type"@) {
            Some(x) => Some(x),
            None => get(p, "type"@),
        },
        None => get(p, "type"@),
    };
    match t {
        Some(JsonV::Str(x)) => x,
        _ => Seq::empty(),
    }
}

/// The line of one parameter in `oapi schema NAME OPERATION`.
pub open spec fn param_line(p: JsonV) -> Seq<char> {
    let nm = str_or(get_str(p, "name"@), "?"@);
    let pin = str_or(get_str(p, "in"@), "?"@);
    let req = match get_bool(p, "required"@) {
        Some(b) => b,
        None => false,
    };
    let typ = param_type_shown(p);
    "  --"@ + kebab(nm) + "  in:"@ + pin + (if typ.len() == 0 {
        Seq::empty()
    } else {
        " type:"@ + typ
    }) + (if req {
        "  (required)"@
    } else {
        Seq::empty()
    }) + "\n"@
}

pub open spec fn param_lines(ps: Seq<JsonV>) -> Seq<char>
    decreases ps.len(),
{
    if ps.len() == 0 {
        Seq::empty()
    } else {
        param_lines(ps.drop_last()) + param_line(ps.last())
    }
}

/// The description of one operation.
pub open spec fn op_detail(o: OperationV) -> Seq<char> {
    o.method + " "@ + o.path + "  ("@ + o.op_id + ")\n"@ + (if o.summary.len() > 0 {
        "  "@ + o.summary + "\n"@
    } else {
        Seq::empty()
    }) + param_lines(o.params) + (if o.has_body {
        "  body: --body JSON | -F key=value\n"@
    } else {
        Seq::empty()
    })
}

/// `w` occurs somewhere in `s`.
pub open spec fn occurs_in(w: Seq<char>, s: Seq<char>) -> bool {
    exists|i: int| 0 <= i <= s.len() - w.len() && #[trigger] s.subrange(i, i + w.len()) == w
}

/// The type a parameter's line shows: `schema.type` when the schema gives a
/// string one, else (a Swagger 2.0 parameter) its own string `type`.
pub proof fn lemma_param_line_shows_type(p: JsonV, t: Seq<char>)
    requires
        t.len() > 0,
        match get(p, "schema"@) {
            Some(sch) => match get(sch, "type"@) {
                Some(x) => x == JsonV::Str(t),
                None => get(p, "type"@) == Some(JsonV::Str(t)),
            },
            None => get(p, "type"@) == Some(JsonV::Str(t)),
        },
    ensures
        occurs_in(" type:"@ + t, param_line(p)),
{
    let nm = str_or(get_str(p, "name"@), "?"@);
    let pin = str_or(get_str(p, "in"@), "?"@);
    let head = "  --"@ + kebab(nm) + "  in:"@ + pin;
    let w = " type:"@ + t;
    assert(param_type_shown(p) == t);
    let line = param_line(p);
    let rest = (if get_bool(p, "required"@) == Some(true) {
        "  (required)"@
    } else {
        Seq::empty()
    }) + "\n"@;
    assert(line =~= head + w + rest);
    assert(line.subrange(head.len() as int, (head.len() + w.len()) as int) =~= w);
}

/// What `oapi schema` prints, or the error for an unknown operation.
pub open spec fn schema_output(spec: JsonV, opname: Option<Seq<char>>) -> Result<
    Seq<char>,
    Seq<char>,
> {
    let ops = operations_spec(spec);
    match opname {
        None => Ok(op_table(ops)),
        Some(want) => match find_op(ops, want) {
            None => Err("operation '"@ + want + "' not found"@),
            Some(o) => Ok(op_detail(o)),
        },
    }
}

fn shown_type(p: &Json) -> (r: String)
    ensures
        r@ == param_type_shown(p@),
{
    let t: Option<&Json> = match p.get("schema") {
        Some(s) => match s.get("type") {
            Some(x) => Some(x),
            None => p.get("type"),
        },
        None => p.get("type"),
    };
    match t {
        Some(Json::Str(x)) => x.clone(),
        _ => String::new(),
    }
}

#[verifier::spinoff_prover]
#[verifier::rlimit(30)]
fn push_param_line(out: &mut String, p: &Json)
    ensures
        final(out)@ == old(out)@ + param_line(p@),
{
    let nm: String = match p.get_str("name") {
        Some(s) => s.clone(),
        None => owned("?"),
    };
    let pin: String = match p.get_str("in") {
        Some(s) => s.clone(),
        None => owned("?"),
    };
    let req = match p.get_bool("required") {
        Some(b) => b,
        None => false,
    };
    let typ = shown_type(p);
    push_str(out, "  --");
    let k = kebab_case(nm.as_str());
    push_str(out, k.as_str());
    push_str(out, "  in:");
    push_str(out, pin.as_str());
    if !typ.as_str().is_empty() {
        push_str(out, " type:");
        push_str(out, typ.as_str());
    }
    if req {
        push_str(out, "  (required)");
    }
    push_str(out, "\n");
    assert(out@ =~= old(out)@ + param_line(p@));
}

pub fn schema_text(spec: &Json, opname: Option<&str>) -> (r: Result<String, String>)
    ensures
        match r {
            Ok(s) => schema_output(
                spec@,
                match opname {
                    Some(o) => Some(o@),
                    None => None,
                },
            ) == Ok::<Seq<char>, Seq<char>>(s@),
            Err(m) => schema_output(
                spec@,
                match opname {
                    Some(o) => Some(o@),
                    None => None,
                },
            ) == Err::<Seq<char>, Seq<char>>(m@),
        },
{
    let ops = operations(spec);
    let mut out = String::new();
    match opname {
        None => {
            let ghost os = op_views(ops@);
            let mut i: usize = 0;
            while i < ops.len()
                invariant
                    i <= ops@.len(),
                    os == op_views(ops@),
                    out@ == op_table(os.take(i as int)),
                decreases ops.len() - i,
            {
                assert(os.take(i + 1).drop_last() =~= os.take(i as int));
                let ghost before = out@;
                push_padded_right(&mut out, ops[i].kebab.as_str(), 28);
                push_str(&mut out, " ");
                push_padded_right(&mut out, ops[i].method.as_str(), 6);
                push_str(&mut out, " ");
                push_padded_right(&mut out, ops[i].path.as_str(), 28);
                push_str(&mut out, " ");
                push_str(&mut out, ops[i].summary.as_str());
                push_str(&mut out, "\n");
                assert(out@ =~= before + op_line(os[i as int]));
                i += 1;
            }
            assert(os.take(i as int) =~= os);
            Ok(out)
        },
        Some(want) => {
            let op = match find_operation(&ops, want) {
                Some(o) => o,
                None => {
                    let mut m = owned("operation '");
                    push_str(&mut m, want);
                    push_str(&mut m, "' not found");
                    return Err(m);
                },
            };
            push_str(&mut out, op.method.as_str());
            push_str(&mut out, " ");
            push_str(&mut out, op.path.as_str());
            push_str(&mut out, "  (");
            push_str(&mut out, op.op_id.as_str());
            push_str(&mut out, ")\n");
            if !op.summary.as_str().is_empty() {
                push_str(&mut out, "  ");
                push_str(&mut out, op.summary.as_str());
                push_str(&mut out, "\n");
            }
            let ghost head = out@;
            let ghost ps = op@.params;
            let mut i: usize = 0;
            while i < op.params.len()
                invariant
                    i <= op.params@.len(),
                    ps == op@.params,
                    out@ == head + param_lines(ps.take(i as int)),
                decreases op.params.len() - i,
            {
                assert(ps.take(i + 1).drop_last() =~= ps.take(i as int));
                assert(ps.take(i + 1).last() == op.params@[i as int]@);
                push_param_line(&mut out, &op.params[i]);
                i += 1;
            }
            assert(ps.take(i as int) =~= ps);
            if op.has_body {
                push_str(&mut out, "  body: --body JSON | -F key=value\n");
            }
            assert(out@ =~= op_detail(op@));
            Ok(out)
        },
    }
}

// ---------------------------------------------------------------------------
// Commands
// ---------------------------------------------------------------------------

/// The command the arguments after the global options ask for. Arguments
/// that follow the fixed ones start at `args_from`.
pub enum Command {
    /// Print the usage and fail.
    Usage,
    Connect { name: String, source: String },
    Sync { name: String },
    Ls,
    Rm { name: String },
    Schema { name: String, operation: Option<String> },
    Api { name: String, method: String, path: String, args_from: usize },
    Call { name: String, operation: String, args_from: usize },
}

pub enum CommandV {
    Usage,
    Connect { name: Seq<char>, source: Seq<char> },
    Sync { name: Seq<char> },
    Ls,
    Rm { name: Seq<char> },
    Schema { name: Seq<char>, operation: Option<Seq<char>> },
    Api { name: Seq<char>, method: Seq<char>, path: Seq<char>, args_from: int },
    Call { name: Seq<char>, operation: Seq<char>, args_from: int },
}

impl View for Command {
    type V = CommandV;

    open spec fn view(&self) -> CommandV {
        match self {
            Command::Usage => CommandV::Usage,
            Command::Connect { name, source } => CommandV::Connect { name: name@, source: source@ },
            Command::Sync { name } => CommandV::Sync { name: name@ },
            Command::Ls => CommandV::Ls,
            Command::Rm { name } => CommandV::Rm { name: name@ },
            Command::Schema { name, operation } => CommandV::Schema {
                name: name@,
                operation: opt_seq(*operation),
            },
            Command::Api { name, method, path, args_from } => CommandV::Api {
                name: name@,
                method: method@,
                path: path@,
                args_from: *args_from as int,
            },
            Command::Call { name, operation, args_from } => CommandV::Call {
                name: name@,
                operation: operation@,
                args_from: *args_from as int,
            },
        }
    }
}

/// The command named by `rest` (the arguments after the global options), or
/// the error for an option where the command should be.
pub open spec fn command_of(rest: Seq<Seq<char>>) -> Result<CommandV, Seq<char>> {
    if rest.len() == 0 {
        Ok(CommandV::Usage)
    } else if starts_with(rest[0], "-"@) {
        Err("invalid global option '"@ + rest[0] + "'"@)
    } else if rest[0] == "connect"@ {
        if rest.len() != 3 {
            Ok(CommandV::Usage)
        } else {
            Ok(CommandV::Connect { name: rest[1], source: rest[2] })
        }
    } else if rest[0] == "sync"@ {
        if rest.len() != 2 {
            Ok(CommandV::Usage)
        } else {
            Ok(CommandV::Sync { name: rest[1] })
        }
    } else if rest[0] == "ls"@ {
        Ok(CommandV::Ls)
    } else if rest[0] == "rm"@ {
        if rest.len() != 2 {
            Ok(CommandV::Usage)
        } else {
            Ok(CommandV::Rm { name: rest[1] })
        }
    } else if rest[0] == "schema"@ {
        if rest.len() < 2 || rest.len() > 3 {
            Ok(CommandV::Usage)
        } else {
            Ok(
                CommandV::Schema {
                    name: rest[1],
                    operation: if rest.len() == 3 {
                        Some(rest[2])
                    } else {
                        None
                    },
                },
            )
        }
    } else if rest[0] == "api"@ {
        if rest.len() < 4 {
            Ok(CommandV::Usage)
        } else {
            Ok(CommandV::Api { name: rest[1], method: rest[2], path: rest[3], args_from: 4 })
        }
    } else if rest.len() < 2 {
        Ok(CommandV::Usage)
    } else {
        Ok(CommandV::Call { name: rest[0], operation: rest[1], args_from: 2 })
    }
}

pub fn parse_command(rest: &Vec<String>) -> (r: Result<Command, String>)
    ensures
        match r {
            Ok(c) => command_of(views(rest@)) == Ok::<CommandV, Seq<char>>(c@),
            Err(m) => command_of(views(rest@)) == Err::<CommandV, Seq<char>>(m@),
        },
{
    let ghost v = views(rest@);
    let n = rest.len();
    if n == 0 {
        return Ok(Command::Usage);
    }
    let first = rest[0].as_str();
    assert(v[0] == first@);
    if n > 1 {
        assert(v[1] == rest@[1]@);
    }
    if n > 2 {
        assert(v[2] == rest@[2]@);
    }
    if n > 3 {
        assert(v[3] == rest@[3]@);
    }
    if has_prefix(first, "-") {
        let mut m = owned("invalid global option '");
        push_str(&mut m, first);
        push_str(&mut m, "'");
        return Err(m);
    }
    if str_eq(first, "connect") {
        if n != 3 {
            return Ok(Command::Usage);
        }
        Ok(Command::Connect { name: rest[1].clone(), source: rest[2].clone() })
    } else if str_eq(first, "sync") {
        if n != 2 {
            return Ok(Command::Usage);
        }
        Ok(Command::Sync { name: rest[1].clone() })
    } else if str_eq(first, "ls") {
        Ok(Command::Ls)
    } else if str_eq(first, "rm") {
        if n != 2 {
            return Ok(Command::Usage);
        }
        Ok(Command::Rm { name: rest[1].clone() })
    } else if str_eq(first, "schema") {
        if n < 2 || n > 3 {
            return Ok(Command::Usage);
        }
        let operation = if n == 3 {
            Some(rest[2].clone())
        } else {
            None
        };
        Ok(Command::Schema { name: rest[1].clone(), operation })
    } else if str_eq(first, "api") {
        if n < 4 {
            return Ok(Command::Usage);
        }
        Ok(
            Command::Api {
                name: rest[1].clone(),
                method: rest[2].clone(),
                path: rest[3].clone(),
                args_from: 4,
            },
        )
    } else if n < 2 {
        Ok(Command::Usage)
    } else {
        Ok(Command::Call { name: rest[0].clone(), operation: rest[1].clone(), args_from: 2 })
    }
}

} // verus!
