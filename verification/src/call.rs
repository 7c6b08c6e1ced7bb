//! `oapi NAME OPERATION [PARAM]... [--FLAG V]...`: from the arguments to
//! the request (URL with path and query parameters, headers, body).
use vstd::prelude::*;

use crate::bind::{body_field, build_body_field, encode_bytes, percent_encode};
use crate::cli::{
    add_header, clone_strings, field_add, header_add, opt_seq, pair_views, parse_field,
    parse_timeout, timeout_ok, timeout_value, trim_trailing_slash, GlobalOpts, GlobalOptsV,
};
use crate::json::{get, get_str, models, Json, JsonV};
use crate::openapi::{
    base_url, base_url_spec, find_op, find_operation, kebab, kebab_case, operations,
    operations_spec, Operation,
};
use crate::output::views;
use crate::registry::Registry;
use crate::text::{
    chars_of, decimal, decimal_string, digits_value, first_index, has_prefix, index_from, lemma_first_index,
    lemma_index_from, owned, push_str, starts_with, str_eq, strip_prefix, substring,
    trim_end_char,
};
use vstd::string::StringSliceAdditionalSpecFns;
use vstd::utf8::encode_utf8;

verus! {

broadcast use vstd::string::group_string_axioms;

/// Percent-encoding of a text (of its UTF-8 bytes).
pub open spec fn pct(s: Seq<char>) -> Seq<char> {
    encode_bytes(encode_utf8(s))
}

// ---------------------------------------------------------------------------
// Arguments of a call
// ---------------------------------------------------------------------------

/// What the arguments of a call say.
pub struct CallArgs {
    pub dry_run: bool,
    pub flag_names: Vec<String>,
    pub flag_vals: Vec<Option<String>>,
    pub positionals: Vec<String>,
    pub body_inline: Option<String>,
    pub body_fields: Vec<(String, String)>,
    pub jq_path: Option<String>,
    pub text_out: bool,
    pub headers: Vec<String>,
    /// The timeout of the request: the last `--timeout` of the call, else the
    /// global one.
    pub timeout_ms: u64,
}

pub struct CallArgsV {
    pub dry_run: bool,
    pub flag_names: Seq<Seq<char>>,
    pub flag_vals: Seq<Option<Seq<char>>>,
    pub positionals: Seq<Seq<char>>,
    pub body_inline: Option<Seq<char>>,
    pub body_fields: Seq<(Seq<char>, Seq<char>)>,
    pub jq_path: Option<Seq<char>>,
    pub text_out: bool,
    pub headers: Seq<Seq<char>>,
    pub timeout_ms: u64,
}

pub open spec fn opt_views(v: Seq<Option<String>>) -> Seq<Option<Seq<char>>> {
    Seq::new(v.len(), |i: int| opt_seq(v[i]))
}

impl View for CallArgs {
    type V = CallArgsV;

    open spec fn view(&self) -> CallArgsV {
        CallArgsV {
            dry_run: self.dry_run,
            flag_names: views(self.flag_names@),
            flag_vals: opt_views(self.flag_vals@),
            positionals: views(self.positionals@),
            body_inline: opt_seq(self.body_inline),
            body_fields: pair_views(self.body_fields@),
            jq_path: opt_seq(self.jq_path),
            text_out: self.text_out,
            headers: views(self.headers@),
            timeout_ms: self.timeout_ms,
        }
    }
}

/// `--name=value`, `--name value` (when the next argument does not start
/// with `-`), or a bare `--name`.
pub open spec fn flag_step(args: Seq<Seq<char>>, i: int, st: CallArgsV) -> (CallArgsV, bool) {
    let rest = args[i].skip(2);
    let e = first_index(rest, '=');
    let name = if e < rest.len() {
        rest.take(e)
    } else {
        rest
    };
    let val = if e < rest.len() {
        Some(rest.skip(e + 1))
    } else {
        None
    };
    if val is None && i + 1 < args.len() && !starts_with(args[i + 1], "-"@) {
        (
            CallArgsV {
                flag_names: st.flag_names.push(name),
                flag_vals: st.flag_vals.push(Some(args[i + 1])),
                ..st
            },
            true,
        )
    } else {
        (CallArgsV { flag_names: st.flag_names.push(name), flag_vals: st.flag_vals.push(val), ..st }, false)
    }
}

/// How one argument of a call changes what the arguments say, and whether it
/// took the next argument too.
pub open spec fn call_step(args: Seq<Seq<char>>, i: int, st: CallArgsV) -> Result<
    (CallArgsV, bool),
    Seq<char>,
> {
    let a = args[i];
    let more = args.len() - i > 1;
    if a == "--dry-run"@ {
        Ok((CallArgsV { dry_run: true, ..st }, false))
    } else if a == "--body"@ {
        if !more {
            Err("missing value for --body"@)
        } else {
            Ok((CallArgsV { body_inline: Some(args[i + 1]), ..st }, true))
        }
    } else if starts_with(a, "--body="@) {
        Ok((CallArgsV { body_inline: Some(a.skip("--body="@.len() as int)), ..st }, false))
    } else if a == "--jq"@ {
        if !more {
            Err("missing value for --jq"@)
        } else {
            Ok((CallArgsV { jq_path: Some(args[i + 1]), ..st }, true))
        }
    } else if starts_with(a, "--jq="@) {
        Ok((CallArgsV { jq_path: Some(a.skip("--jq="@.len() as int)), ..st }, false))
    } else if a == "--header"@ {
        if !more {
            Err("missing value for --header"@)
        } else {
            match header_add(st.headers, args[i + 1]) {
                Err(m) => Err(m),
                Ok(hs) => Ok((CallArgsV { headers: hs, ..st }, true)),
            }
        }
    } else if starts_with(a, "--header="@) {
        match header_add(st.headers, a.skip("--header="@.len() as int)) {
            Err(m) => Err(m),
            Ok(hs) => Ok((CallArgsV { headers: hs, ..st }, false)),
        }
    } else if a == "--timeout"@ {
        if !more || !timeout_ok(args[i + 1]) {
            Err("invalid value for --timeout"@)
        } else {
            Ok((CallArgsV { timeout_ms: digits_value(args[i + 1]) as u64, ..st }, true))
        }
    } else if starts_with(a, "--timeout="@) {
        if !timeout_ok(a.skip("--timeout="@.len() as int)) {
            Err("invalid value for --timeout"@)
        } else {
            Ok(
                (
                    CallArgsV {
                        timeout_ms: digits_value(a.skip("--timeout="@.len() as int)) as u64,
                        ..st
                    },
                    false,
                ),
            )
        }
    } else if a == "--insecure"@ {
        Ok((st, false))
    } else if a == "--text"@ {
        Ok((CallArgsV { text_out: true, ..st }, false))
    } else if a == "-F"@ {
        if !more {
            Err("missing value for -F"@)
        } else {
            match field_add(st.body_fields, args[i + 1]) {
                Err(m) => Err(m),
                Ok(f) => Ok((CallArgsV { body_fields: f, ..st }, true)),
            }
        }
    } else if starts_with(a, "-F"@) {
        let v = a.skip("-F"@.len() as int);
        if starts_with(v, "="@) && v.len() > 1 {
            match field_add(st.body_fields, v.skip(1)) {
                Err(m) => Err(m),
                Ok(f) => Ok((CallArgsV { body_fields: f, ..st }, false)),
            }
        } else {
            Err("bad -F argument '"@ + a + "'"@)
        }
    } else if a == "-o"@ {
        if !more || args[i + 1] != "text"@ {
            Err("-o supports 'text' only"@)
        } else {
            Ok((CallArgsV { text_out: true, ..st }, true))
        }
    } else if starts_with(a, "--"@) {
        Ok(flag_step(args, i, st))
    } else {
        Ok((CallArgsV { positionals: st.positionals.push(a), ..st }, false))
    }
}

pub open spec fn call_from(args: Seq<Seq<char>>, i: int, st: CallArgsV) -> Result<
    CallArgsV,
    Seq<char>,
>
    decreases args.len() - i,
{
    if i < 0 || i >= args.len() {
        Ok(st)
    } else {
        match call_step(args, i, st) {
            Err(m) => Err(m),
            Ok((next, two)) => call_from(
                args,
                i + if two {
                    2int
                } else {
                    1int
                },
                next,
            ),
        }
    }
}

pub open spec fn call_init(opts: GlobalOptsV) -> CallArgsV {
    CallArgsV {
        dry_run: opts.dry_run,
        flag_names: Seq::empty(),
        flag_vals: Seq::empty(),
        positionals: Seq::empty(),
        body_inline: None,
        body_fields: Seq::empty(),
        jq_path: None,
        text_out: false,
        headers: opts.headers,
        timeout_ms: opts.timeout_ms,
    }
}

proof fn lemma_opt_views_push(v: Seq<Option<String>>, x: Option<String>)
    ensures
        opt_views(v.push(x)) == opt_views(v).push(opt_seq(x)),
{
    assert(opt_views(v.push(x)) =~= opt_views(v).push(opt_seq(x)));
}

proof fn lemma_views_push(v: Seq<String>, x: String)
    ensures
        views(v.push(x)) == views(v).push(x@),
{
    assert(views(v.push(x)) =~= views(v).push(x@));
}

fn flag_step_exec(args: &Vec<String>, i: usize, st: &mut CallArgs) -> (two: bool)
    requires
        i < args@.len(),
        starts_with(args@[i as int]@, "--"@),
    ensures
        (final(st)@, two) == flag_step(views(args@), i as int, old(st)@),
{
    let ghost a = views(args@);
    let arg = args[i].as_str();
    assert(a[i as int] == arg@);
    let rv = chars_of(arg);
    proof {
        reveal_strlit("--");
    }
    let rest = substring(&rv, 2, rv.len());
    let restv = chars_of(rest.as_str());
    let e = crate::text::find(&restv, '=');
    proof {
        lemma_first_index(restv@, '=');
    }
    let name: String;
    let mut val: Option<String>;
    if e < restv.len() {
        name = substring(&restv, 0, e);
        val = Some(substring(&restv, e + 1, restv.len()));
    } else {
        name = rest.clone();
        val = None;
    }
    let ghost before_names = st.flag_names@;
    let ghost before_vals = st.flag_vals@;
    let mut two = false;
    if val.is_none() && args.len() - i > 1 && !has_prefix(args[i + 1].as_str(), "-") {
        assert(a[i + 1] == args@[i + 1]@);
        val = Some(args[i + 1].clone());
        two = true;
    }
    let ghost nv = name@;
    let ghost vv = opt_seq(val);
    proof {
        lemma_views_push(before_names, name);
        lemma_opt_views_push(before_vals, val);
    }
    st.flag_names.push(name);
    st.flag_vals.push(val);
    assert(st@.flag_names == old(st)@.flag_names.push(nv));
    assert(st@.flag_vals == old(st)@.flag_vals.push(vv));
    two
}

fn call_step_exec(args: &Vec<String>, i: usize, st: &mut CallArgs) -> (r: Result<bool, String>)
    requires
        i < args@.len(),
    ensures
        match r {
            Ok(two) => call_step(views(args@), i as int, old(st)@) == Ok::<
                (CallArgsV, bool),
                Seq<char>,
            >((final(st)@, two)),
            Err(m) => call_step(views(args@), i as int, old(st)@) == Err::<
                (CallArgsV, bool),
                Seq<char>,
            >(m@),
        },
{
    let ghost a = views(args@);
    let arg = args[i].as_str();
    assert(a[i as int] == arg@);
    let more = args.len() - i > 1;
    if more {
        assert(a[i + 1] == args@[i + 1]@);
    }
    if str_eq(arg, "--dry-run") {
        st.dry_run = true;
        Ok(false)
    } else if str_eq(arg, "--body") {
        if !more {
            return Err(owned("missing value for --body"));
        }
        st.body_inline = Some(args[i + 1].clone());
        Ok(true)
    } else if let Some(v) = strip_prefix(arg, "--body=") {
        st.body_inline = Some(v);
        Ok(false)
    } else if str_eq(arg, "--jq") {
        if !more {
            return Err(owned("missing value for --jq"));
        }
        st.jq_path = Some(args[i + 1].clone());
        Ok(true)
    } else if let Some(v) = strip_prefix(arg, "--jq=") {
        st.jq_path = Some(v);
        Ok(false)
    } else if str_eq(arg, "--header") {
        if !more {
            return Err(owned("missing value for --header"));
        }
        match add_header(&mut st.headers, args[i + 1].as_str()) {
            Ok(_) => Ok(true),
            Err(m) => Err(m),
        }
    } else if let Some(v) = strip_prefix(arg, "--header=") {
        match add_header(&mut st.headers, v.as_str()) {
            Ok(_) => Ok(false),
            Err(m) => Err(m),
        }
    } else if str_eq(arg, "--timeout") {
        if !more || !parse_timeout(args[i + 1].as_str()) {
            return Err(owned("invalid value for --timeout"));
        }
        st.timeout_ms = timeout_value(args[i + 1].as_str());
        Ok(true)
    } else if let Some(v) = strip_prefix(arg, "--timeout=") {
        if !parse_timeout(v.as_str()) {
            return Err(owned("invalid value for --timeout"));
        }
        st.timeout_ms = timeout_value(v.as_str());
        Ok(false)
    } else if str_eq(arg, "--insecure") {
        Ok(false)
    } else if str_eq(arg, "--text") {
        st.text_out = true;
        Ok(false)
    } else if str_eq(arg, "-F") {
        if !more {
            return Err(owned("missing value for -F"));
        }
        match parse_field(&mut st.body_fields, args[i + 1].as_str()) {
            Ok(_) => Ok(true),
            Err(m) => Err(m),
        }
    } else if let Some(v) = strip_prefix(arg, "-F") {
        let vv = chars_of(v.as_str());
        if has_prefix(v.as_str(), "=") && vv.len() > 1 {
            proof {
                reveal_strlit("=");
            }
            let field = substring(&vv, 1, vv.len());
            assert(field@ =~= v@.skip(1));
            match parse_field(&mut st.body_fields, field.as_str()) {
                Ok(_) => Ok(false),
                Err(m) => Err(m),
            }
        } else {
            let mut m = owned("bad -F argument '");
            push_str(&mut m, arg);
            push_str(&mut m, "'");
            Err(m)
        }
    } else if str_eq(arg, "-o") {
        if !more || !str_eq(args[i + 1].as_str(), "text") {
            return Err(owned("-o supports 'text' only"));
        }
        st.text_out = true;
        Ok(true)
    } else if has_prefix(arg, "--") {
        let two = flag_step_exec(args, i, st);
        Ok(two)
    } else {
        let ghost before = st.positionals@;
        let p = owned(arg);
        proof {
            lemma_views_push(before, p);
        }
        st.positionals.push(p);
        Ok(false)
    }
}

/// Reads the arguments of a call.
pub fn parse_call_args(args: &Vec<String>, opts: &GlobalOpts) -> (r: Result<CallArgs, String>)
    ensures
        match r {
            Ok(st) => call_from(views(args@), 0, call_init(opts@)) == Ok::<CallArgsV, Seq<char>>(
                st@,
            ),
            Err(m) => call_from(views(args@), 0, call_init(opts@)) == Err::<CallArgsV, Seq<char>>(
                m@,
            ),
        },
{
    let mut st = CallArgs {
        dry_run: opts.dry_run,
        flag_names: Vec::new(),
        flag_vals: Vec::new(),
        positionals: Vec::new(),
        body_inline: None,
        body_fields: Vec::new(),
        jq_path: None,
        text_out: false,
        headers: clone_strings(&opts.headers),
        timeout_ms: opts.timeout_ms,
    };
    assert(st@.flag_names =~= Seq::<Seq<char>>::empty());
    assert(st@.flag_vals =~= Seq::<Option<Seq<char>>>::empty());
    assert(st@.positionals =~= Seq::<Seq<char>>::empty());
    assert(st@.body_fields =~= Seq::<(Seq<char>, Seq<char>)>::empty());
    assert(st@ == call_init(opts@));
    let ghost a = views(args@);
    let mut i: usize = 0;
    while i < args.len()
        invariant
            i <= args@.len(),
            a == views(args@),
            call_from(a, i as int, st@) == call_from(a, 0, call_init(opts@)),
        decreases args.len() - i,
    {
        match call_step_exec(args, i, &mut st) {
            Ok(two) => {
                if two {
                    i += 2;
                } else {
                    i += 1;
                }
            },
            Err(m) => return Err(m),
        }
    }
    Ok(st)
}

// ---------------------------------------------------------------------------
// From the arguments to the request
// ---------------------------------------------------------------------------

/// `p.get("name").and_then(as_str).unwrap_or("")`, and the same for `in`.
pub open spec fn pname(p: JsonV) -> Seq<char> {
    match get_str(p, "name"@) {
        Some(n) => n,
        None => Seq::empty(),
    }
}

pub open spec fn pin(p: JsonV) -> Seq<char> {
    match get_str(p, "in"@) {
        Some(n) => n,
        None => Seq::empty(),
    }
}

/// The number of path parameters.
pub open spec fn path_param_count(ps: Seq<JsonV>) -> nat
    decreases ps.len(),
{
    if ps.len() == 0 {
        0
    } else {
        path_param_count(ps.drop_last()) + if get_str(ps.last(), "in"@) == Some("path"@) {
            1nat
        } else {
            0nat
        }
    }
}

/// The URL built so far (`out`), continued with the path template from
/// position `i`, each `{name}` replaced by the next positional argument
/// (percent-encoded).
pub open spec fn fill_path(
    path: Seq<char>,
    i: int,
    pos: Seq<Seq<char>>,
    pi: int,
    out: Seq<char>,
) -> Result<Seq<char>, Seq<char>>
    decreases path.len() - i,
{
    if i < 0 || i >= path.len() {
        Ok(out)
    } else if path[i] == '{' {
        let j = index_from(path, '}', i + 1);
        proof {
            lemma_index_from(path, '}', i + 1);
        }
        let name = path.subrange(i + 1, j);
        let next = if j < path.len() {
            j + 1
        } else {
            path.len() as int
        };
        if 0 <= pi < pos.len() {
            fill_path(path, next, pos, pi + 1, out + pct(pos[pi]))
        } else {
            Err("missing value for path parameter {"@ + name + "}"@)
        }
    } else {
        fill_path(path, i + 1, pos, pi, out.push(path[i]))
    }
}

/// Whether a parameter answers to the flag `name` (by its kebab-case name or
/// its own name) and can take a flag (it is not a path parameter).
pub open spec fn names_param(p: JsonV, name: Seq<char>) -> bool {
    kebab(pname(p)) == name || pname(p) == name
}

pub open spec fn flag_target(p: JsonV, name: Seq<char>) -> bool {
    names_param(p, name) && pin(p) != "path"@
}

pub open spec fn match_from(ps: Seq<JsonV>, name: Seq<char>, j: int) -> int
    decreases ps.len() - j,
{
    if j < 0 || j >= ps.len() {
        ps.len() as int
    } else if flag_target(ps[j], name) {
        j
    } else {
        match_from(ps, name, j + 1)
    }
}

/// `schema.type` of a parameter, empty when it has none.
pub open spec fn schema_type(p: JsonV) -> Seq<char> {
    match get(p, "schema"@) {
        Some(s) => match get_str(s, "type"@) {
            Some(t) => t,
            None => Seq::empty(),
        },
        None => Seq::empty(),
    }
}

/// A flag may go without a value when it names a boolean query parameter.
pub open spec fn is_bool_flag(ps: Seq<JsonV>, name: Seq<char>) -> bool {
    exists|j: int|
        #![trigger ps[j]]
        0 <= j < ps.len() && names_param(ps[j], name) && pin(ps[j]) == "query"@ && schema_type(
            ps[j],
        ) == "boolean"@
}

/// The flags from `k` on bound to the operation's parameters: header
/// parameters become headers, the others query pairs.
pub open spec fn bind_flags(
    ps: Seq<JsonV>,
    names: Seq<Seq<char>>,
    vals: Seq<Option<Seq<char>>>,
    k: int,
    query: Seq<char>,
    headers: Seq<Seq<char>>,
) -> Result<(Seq<char>, Seq<Seq<char>>), Seq<char>>
    decreases names.len() - k,
{
    if k < 0 || k >= names.len() {
        Ok((query, headers))
    } else {
        let name = names[k];
        let val = vals[k];
        let j = match_from(ps, name, 0);
        if j < 0 || j >= ps.len() {
            Err("unknown flag --"@ + name + " (see: oapi schema)"@)
        } else {
            let p = ps[j];
            let (q2, h2) = if pin(p) == "header"@ {
                (
                    query,
                    headers.push(
                        pname(p) + ": "@ + match val {
                            Some(v) => v,
                            None => Seq::empty(),
                        },
                    ),
                )
            } else {
                (
                    (if query.len() > 0 {
                        query + "&"@
                    } else {
                        query
                    }) + pct(pname(p)) + "="@ + pct(
                        match val {
                            Some(v) => v,
                            None => "true"@,
                        },
                    ),
                    headers,
                )
            };
            if val is None && !is_bool_flag(ps, name) {
                Err("missing value for --"@ + name)
            } else {
                bind_flags(ps, names, vals, k + 1, q2, h2)
            }
        }
    }
}

/// The `-F` fields as a JSON object body.
pub open spec fn fields_json(fields: Seq<(Seq<char>, Seq<char>)>) -> Seq<char>
    decreases fields.len(),
{
    if fields.len() == 0 {
        Seq::empty()
    } else if fields.len() == 1 {
        body_field(fields[0].0, fields[0].1)
    } else {
        fields_json(fields.drop_last()) + ","@ + body_field(fields.last().0, fields.last().1)
    }
}

/// Where the body of a call comes from.
pub enum BodySource {
    /// The body itself (empty for none).
    Inline(String),
    /// `--body @FILE`: the contents of a file.
    File(String),
    /// `--body -`: standard input.
    Stdin,
}

pub enum BodySourceV {
    Inline(Seq<char>),
    File(Seq<char>),
    Stdin,
}

impl View for BodySource {
    type V = BodySourceV;

    open spec fn view(&self) -> BodySourceV {
        match self {
            BodySource::Inline(s) => BodySourceV::Inline(s@),
            BodySource::File(s) => BodySourceV::File(s@),
            BodySource::Stdin => BodySourceV::Stdin,
        }
    }
}

/// The body of a call: `--body` (a file with `@`, standard input with `-`) or
/// the `-F` fields, not both.
pub open spec fn body_source(
    inline: Option<Seq<char>>,
    fields: Seq<(Seq<char>, Seq<char>)>,
) -> Result<BodySourceV, Seq<char>> {
    match inline {
        Some(b) => if fields.len() > 0 {
            Err("--body and -F are mutually exclusive"@)
        } else if starts_with(b, "@"@) {
            Ok(BodySourceV::File(b.skip(1)))
        } else if b == "-"@ {
            Ok(BodySourceV::Stdin)
        } else {
            Ok(BodySourceV::Inline(b))
        },
        None => if fields.len() > 0 {
            Ok(BodySourceV::Inline("{"@ + fields_json(fields) + "}"@))
        } else {
            Ok(BodySourceV::Inline(Seq::empty()))
        },
    }
}

/// The request of a call, before its body is read.
pub struct CallPlan {
    pub method: String,
    pub url: String,
    pub headers: Vec<String>,
    pub body: BodySource,
    pub dry_run: bool,
    pub jq_path: Option<String>,
    pub text_out: bool,
    /// The timeout of the request, in milliseconds.
    pub timeout_ms: u64,
}

pub struct CallPlanV {
    pub method: Seq<char>,
    pub url: Seq<char>,
    pub headers: Seq<Seq<char>>,
    pub body: BodySourceV,
    pub dry_run: bool,
    pub jq_path: Option<Seq<char>>,
    pub text_out: bool,
    pub timeout_ms: u64,
}

impl View for CallPlan {
    type V = CallPlanV;

    open spec fn view(&self) -> CallPlanV {
        CallPlanV {
            method: self.method@,
            url: self.url@,
            headers: views(self.headers@),
            body: self.body@,
            dry_run: self.dry_run,
            jq_path: opt_seq(self.jq_path),
            text_out: self.text_out,
            timeout_ms: self.timeout_ms,
        }
    }
}

/// The request a call makes, or the error it stops with, in the order the
/// checks are made.
pub open spec fn call_plan(
    source: Seq<char>,
    spec: JsonV,
    opname: Seq<char>,
    args: Seq<Seq<char>>,
    opts: GlobalOptsV,
) -> Result<CallPlanV, Seq<char>> {
    match find_op(operations_spec(spec), opname) {
        None => Err("operation '"@ + opname + "' not found"@),
        Some(op) => match call_from(args, 0, call_init(opts)) {
            Err(m) => Err(m),
            Ok(st) => {
                let need = path_param_count(op.params);
                let got = st.positionals.len();
                if got < need {
                    Err(
                        opname + " needs "@ + decimal(need) + " positional path parameter(s), got "@
                            + decimal(got),
                    )
                } else if got > need {
                    Err(
                        opname + " accepts "@ + decimal(need)
                            + " positional path parameter(s), got "@ + decimal(got),
                    )
                } else {
                    match base_url_spec(source, spec) {
                        None => Err("spec has no usable server url"@),
                        Some(b) => match fill_path(
                            op.path,
                            0,
                            st.positionals,
                            0,
                            trim_end_char(b, '/'),
                        ) {
                            Err(m) => Err(m),
                            Ok(u) => match bind_flags(
                                op.params,
                                st.flag_names,
                                st.flag_vals,
                                0,
                                Seq::empty(),
                                st.headers,
                            ) {
                                Err(m) => Err(m),
                                Ok((query, headers)) => match body_source(
                                    st.body_inline,
                                    st.body_fields,
                                ) {
                                    Err(m) => Err(m),
                                    Ok(body) => Ok(
                                        CallPlanV {
                                            method: op.method,
                                            url: if query.len() > 0 {
                                                u + "?"@ + query
                                            } else {
                                                u
                                            },
                                            headers,
                                            body,
                                            dry_run: st.dry_run,
                                            jq_path: st.jq_path,
                                            text_out: st.text_out,
                                            timeout_ms: st.timeout_ms,
                                        },
                                    ),
                                },
                            },
                        },
                    }
                }
            },
        },
    }
}

fn count_path_params(ps: &Vec<Json>) -> (r: usize)
    ensures
        r == path_param_count(models(ps@)),
{
    let ghost m = models(ps@);
    let mut n: usize = 0;
    let mut i: usize = 0;
    while i < ps.len()
        invariant
            i <= ps@.len(),
            m == models(ps@),
            n == path_param_count(m.take(i as int)),
            n <= i,
        decreases ps.len() - i,
    {
        assert(m.take(i + 1).drop_last() =~= m.take(i as int));
        assert(m.take(i + 1).last() == ps@[i as int]@);
        let is_path = match ps[i].get_str("in") {
            Some(s) => str_eq(s.as_str(), "path"),
            None => false,
        };
        if is_path {
            n += 1;
        }
        i += 1;
    }
    assert(m.take(i as int) =~= m);
    n
}

/// Template text without `{` is copied into the URL as it stands.
pub proof fn lemma_fill_path_text(
    path: Seq<char>,
    i: int,
    n: int,
    pos: Seq<Seq<char>>,
    pi: int,
    out: Seq<char>,
)
    requires
        0 <= i,
        0 <= n,
        i + n <= path.len(),
        forall|k: int| i <= k < i + n ==> #[trigger] path[k] != '{',
    ensures
        fill_path(path, i, pos, pi, out) == fill_path(
            path,
            i + n,
            pos,
            pi,
            out + path.subrange(i, i + n),
        ),
    decreases n,
{
    if n == 0 {
        assert(out + path.subrange(i, i) =~= out);
    } else {
        assert(path[i] != '{');
        lemma_fill_path_text(path, i + 1, n - 1, pos, pi, out.push(path[i]));
        assert(out.push(path[i]) + path.subrange(i + 1, i + n) =~= out + path.subrange(i, i + n));
    }
}

/// A placeholder `{name}` takes the next positional argument: the one at
/// `pi` when `pi` of them have been used, percent-encoded.
pub proof fn lemma_fill_path_placeholder(
    path: Seq<char>,
    i: int,
    j: int,
    pos: Seq<Seq<char>>,
    pi: int,
    out: Seq<char>,
)
    requires
        0 <= i < j < path.len(),
        path[i] == '{',
        path[j] == '}',
        forall|k: int| i < k < j ==> #[trigger] path[k] != '}',
        0 <= pi < pos.len(),
    ensures
        fill_path(path, i, pos, pi, out) == fill_path(path, j + 1, pos, pi + 1, out + pct(pos[pi])),
{
    lemma_index_from(path, '}', i + 1);
    let r = index_from(path, '}', i + 1);
    if r < j {
        assert(path[r] == '}');
    }
    if r > j {
        assert(path[j] != '}');
    }
    assert(r == j);
}

/// Path parameters are filled in order: for the template
/// `t0{a}t1{b}t2` and the positional arguments `[x, y]`, the URL continues
/// with `t0`, `x` percent-encoded, `t1`, `y` percent-encoded and `t2`.
pub proof fn lemma_fill_path_in_order(
    t0: Seq<char>,
    a: Seq<char>,
    t1: Seq<char>,
    b: Seq<char>,
    t2: Seq<char>,
    x: Seq<char>,
    y: Seq<char>,
    out: Seq<char>,
)
    requires
        !t0.contains('{'),
        !t1.contains('{'),
        !t2.contains('{'),
        !a.contains('}'),
        !b.contains('}'),
    ensures
        fill_path(
            t0 + seq!['{'] + a + seq!['}'] + t1 + seq!['{'] + b + seq!['}'] + t2,
            0,
            seq![x, y],
            0,
            out,
        ) == Ok::<Seq<char>, Seq<char>>(out + t0 + pct(x) + t1 + pct(y) + t2),
{
    let path = t0 + seq!['{'] + a + seq!['}'] + t1 + seq!['{'] + b + seq!['}'] + t2;
    let pos = seq![x, y];
    let i1 = t0.len() as int;
    let j1 = i1 + 1 + a.len();
    let s1 = j1 + 1;
    let i2 = s1 + t1.len();
    let j2 = i2 + 1 + b.len();
    let s2 = j2 + 1;
    assert(path.len() == s2 + t2.len());
    assert(path.subrange(0, i1) =~= t0);
    assert(path.subrange(i1 + 1, j1) =~= a);
    assert(path.subrange(s1, i2) =~= t1);
    assert(path.subrange(i2 + 1, j2) =~= b);
    assert(path.subrange(s2, path.len() as int) =~= t2);
    assert(path[i1] == '{' && path[j1] == '}' && path[i2] == '{' && path[j2] == '}');
    assert forall|k: int| 0 <= k < i1 implies #[trigger] path[k] != '{' by {
        assert(path.subrange(0, i1)[k] == path[k]);
        assert(t0[k] != '{');
    }
    assert forall|k: int| i1 < k < j1 implies #[trigger] path[k] != '}' by {
        assert(path.subrange(i1 + 1, j1)[k - i1 - 1] == path[k]);
        assert(a[k - i1 - 1] != '}');
    }
    assert forall|k: int| s1 <= k < i2 implies #[trigger] path[k] != '{' by {
        assert(path.subrange(s1, i2)[k - s1] == path[k]);
        assert(t1[k - s1] != '{');
    }
    assert forall|k: int| i2 < k < j2 implies #[trigger] path[k] != '}' by {
        assert(path.subrange(i2 + 1, j2)[k - i2 - 1] == path[k]);
        assert(b[k - i2 - 1] != '}');
    }
    assert forall|k: int| s2 <= k < path.len() implies #[trigger] path[k] != '{' by {
        assert(path.subrange(s2, path.len() as int)[k - s2] == path[k]);
        assert(t2[k - s2] != '{');
    }
    lemma_fill_path_text(path, 0, i1, pos, 0, out);
    let o1 = out + t0;
    lemma_fill_path_placeholder(path, i1, j1, pos, 0, o1);
    let o2 = o1 + pct(x);
    lemma_fill_path_text(path, s1, t1.len() as int, pos, 1, o2);
    let o3 = o2 + t1;
    lemma_fill_path_placeholder(path, i2, j2, pos, 1, o3);
    let o4 = o3 + pct(y);
    lemma_fill_path_text(path, s2, t2.len() as int, pos, 2, o4);
    assert(fill_path(path, path.len() as int, pos, 2, o4 + t2) == Ok::<Seq<char>, Seq<char>>(
        o4 + t2,
    ));
}

fn fill_path_exec(path: &str, pos: &Vec<String>, url: &mut String) -> (r: Result<(), String>)
    ensures
        match r {
            Ok(_) => fill_path(path@, 0, views(pos@), 0, old(url)@) == Ok::<Seq<char>, Seq<char>>(
                final(url)@,
            ),
            Err(m) => fill_path(path@, 0, views(pos@), 0, old(url)@) == Err::<
                Seq<char>,
                Seq<char>,
            >(m@),
        },
{
    let v = chars_of(path);
    let ghost ps = views(pos@);
    let mut i: usize = 0;
    let mut pi: usize = 0;
    while i < v.len()
        invariant
            i <= v@.len(),
            v@ == path@,
            ps == views(pos@),
            fill_path(v@, i as int, ps, pi as int, url@) == fill_path(path@, 0, ps, 0, old(url)@),
        decreases v.len() - i,
    {
        let c = v[i];
        if c == '{' {
            let j = crate::text::find_from(&v, '}', i + 1);
            proof {
                lemma_index_from(v@, '}', i + 1);
            }
            let next = if j < v.len() {
                j + 1
            } else {
                v.len()
            };
            if pi < pos.len() {
                let enc = percent_encode(pos[pi].as_str());
                assert(ps[pi as int] == pos@[pi as int]@);
                push_str(url, enc.as_str());
                pi += 1;
                i = next;
            } else {
                let name = substring(&v, i + 1, j);
                let mut m = owned("missing value for path parameter {");
                push_str(&mut m, name.as_str());
                push_str(&mut m, "}");
                return Err(m);
            }
        } else {
            url.push(c);
            i += 1;
        }
    }
    Ok(())
}

fn matching_param(ps: &Vec<Json>, name: &str) -> (r: usize)
    ensures
        r == match_from(models(ps@), name@, 0),
        r <= ps@.len(),
{
    let ghost m = models(ps@);
    let mut j: usize = 0;
    while j < ps.len()
        invariant
            j <= ps@.len(),
            m == models(ps@),
            match_from(m, name@, 0) == match_from(m, name@, j as int),
        decreases ps.len() - j,
    {
        assert(m[j as int] == ps@[j as int]@);
        let pn: String = match ps[j].get_str("name") {
            Some(s) => s.clone(),
            None => String::new(),
        };
        let pi: String = match ps[j].get_str("in") {
            Some(s) => s.clone(),
            None => String::new(),
        };
        let k = kebab_case(pn.as_str());
        if (str_eq(k.as_str(), name) || str_eq(pn.as_str(), name)) && !str_eq(pi.as_str(), "path") {
            return j;
        }
        j += 1;
    }
    j
}

fn bool_flag(ps: &Vec<Json>, name: &str) -> (r: bool)
    ensures
        r == is_bool_flag(models(ps@), name@),
{
    let ghost m = models(ps@);
    let mut j: usize = 0;
    while j < ps.len()
        invariant
            j <= ps@.len(),
            m == models(ps@),
            forall|x: int|
                0 <= x < j ==> !(names_param(#[trigger] m[x], name@) && pin(m[x]) == "query"@
                    && schema_type(m[x]) == "boolean"@),
        decreases ps.len() - j,
    {
        assert(m[j as int] == ps@[j as int]@);
        let pn: String = match ps[j].get_str("name") {
            Some(s) => s.clone(),
            None => String::new(),
        };
        let pi: String = match ps[j].get_str("in") {
            Some(s) => s.clone(),
            None => String::new(),
        };
        let typ: String = match ps[j].get("schema") {
            Some(s) => match s.get_str("type") {
                Some(t) => t.clone(),
                None => String::new(),
            },
            None => String::new(),
        };
        let k = kebab_case(pn.as_str());
        if (str_eq(k.as_str(), name) || str_eq(pn.as_str(), name)) && str_eq(pi.as_str(), "query")
            && str_eq(typ.as_str(), "boolean") {
            return true;
        }
        j += 1;
    }
    false
}

fn bind_flags_exec(
    ps: &Vec<Json>,
    names: &Vec<String>,
    vals: &Vec<Option<String>>,
    query: &mut String,
    headers: &mut Vec<String>,
) -> (r: Result<(), String>)
    requires
        names@.len() == vals@.len(),
    ensures
        match r {
            Ok(_) => bind_flags(
                models(ps@),
                views(names@),
                opt_views(vals@),
                0,
                old(query)@,
                views(old(headers)@),
            ) == Ok::<(Seq<char>, Seq<Seq<char>>), Seq<char>>((final(query)@, views(final(headers)@))),
            Err(m) => bind_flags(
                models(ps@),
                views(names@),
                opt_views(vals@),
                0,
                old(query)@,
                views(old(headers)@),
            ) is Err && bind_flags(
                models(ps@),
                views(names@),
                opt_views(vals@),
                0,
                old(query)@,
                views(old(headers)@),
            )->Err_0 == m@,
        },
{
    let ghost m = models(ps@);
    let ghost ns = views(names@);
    let ghost vs = opt_views(vals@);
    let mut k: usize = 0;
    while k < names.len()
        invariant
            k <= names@.len(),
            names@.len() == vals@.len(),
            m == models(ps@),
            ns == views(names@),
            vs == opt_views(vals@),
            bind_flags(m, ns, vs, k as int, query@, views(headers@)) == bind_flags(
                m,
                ns,
                vs,
                0,
                old(query)@,
                views(old(headers)@),
            ),
        decreases names.len() - k,
    {
        let name = names[k].as_str();
        assert(ns[k as int] == name@);
        assert(vs[k as int] == opt_seq(vals@[k as int]));
        let j = matching_param(ps, name);
        if j >= ps.len() {
            let mut msg = owned("unknown flag --");
            push_str(&mut msg, name);
            push_str(&mut msg, " (see: oapi schema)");
            return Err(msg);
        }
        assert(m[j as int] == ps@[j as int]@);
        let p = &ps[j];
        let pn: String = match p.get_str("name") {
            Some(s) => s.clone(),
            None => String::new(),
        };
        let pi: String = match p.get_str("in") {
            Some(s) => s.clone(),
            None => String::new(),
        };
        if str_eq(pi.as_str(), "header") {
            let mut h = pn.clone();
            push_str(&mut h, ": ");
            match &vals[k] {
                Some(v) => push_str(&mut h, v.as_str()),
                None => {},
            }
            let ghost before = headers@;
            proof {
                lemma_views_push(before, h);
            }
            headers.push(h);
        } else {
            if !query.as_str().is_empty() {
                push_str(query, "&");
            }
            let en = percent_encode(pn.as_str());
            push_str(query, en.as_str());
            push_str(query, "=");
            let ev = match &vals[k] {
                Some(v) => percent_encode(v.as_str()),
                None => percent_encode("true"),
            };
            push_str(query, ev.as_str());
        }
        if vals[k].is_none() && !bool_flag(ps, name) {
            let mut msg = owned("missing value for --");
            push_str(&mut msg, name);
            return Err(msg);
        }
        k += 1;
    }
    Ok(())
}

fn fields_body(fields: &Vec<(String, String)>) -> (r: String)
    ensures
        r@ == fields_json(pair_views(fields@)),
{
    let ghost f = pair_views(fields@);
    let mut out = String::new();
    let mut i: usize = 0;
    while i < fields.len()
        invariant
            i <= fields@.len(),
            f == pair_views(fields@),
            out@ == fields_json(f.take(i as int)),
        decreases fields.len() - i,
    {
        assert(f.take(i + 1).drop_last() =~= f.take(i as int));
        assert(f.take(i + 1).last() == f[i as int]);
        let ghost before = out@;
        if i > 0 {
            push_str(&mut out, ",");
        }
        let b = build_body_field(fields[i].0.as_str(), fields[i].1.as_str());
        push_str(&mut out, b.as_str());
        if i == 0 {
            assert(out@ =~= fields_json(f.take(1)));
        } else {
            assert(out@ =~= fields_json(f.take(i + 1)));
        }
        i += 1;
    }
    assert(f.take(i as int) =~= f);
    out
}

fn body_source_exec(inline: &Option<String>, fields: &Vec<(String, String)>) -> (r: Result<
    BodySource,
    String,
>)
    ensures
        match r {
            Ok(b) => body_source(opt_seq(*inline), pair_views(fields@)) == Ok::<
                BodySourceV,
                Seq<char>,
            >(b@),
            Err(m) => body_source(opt_seq(*inline), pair_views(fields@)) == Err::<
                BodySourceV,
                Seq<char>,
            >(m@),
        },
{
    match inline {
        Some(b) => {
            if fields.len() > 0 {
                return Err(owned("--body and -F are mutually exclusive"));
            }
            if has_prefix(b.as_str(), "@") {
                let v = chars_of(b.as_str());
                proof {
                    reveal_strlit("@");
                }
                Ok(BodySource::File(substring(&v, 1, v.len())))
            } else if str_eq(b.as_str(), "-") {
                Ok(BodySource::Stdin)
            } else {
                Ok(BodySource::Inline(b.clone()))
            }
        },
        None => {
            if fields.len() > 0 {
                let mut s = owned("{");
                let inner = fields_body(fields);
                push_str(&mut s, inner.as_str());
                push_str(&mut s, "}");
                Ok(BodySource::Inline(s))
            } else {
                Ok(BodySource::Inline(String::new()))
            }
        },
    }
}

/// Works out the request of a call of `opname` against the entry `r`.
pub fn plan_call(r: &Registry, opname: &str, args: &Vec<String>, opts: &GlobalOpts) -> (res:
    Result<CallPlan, String>)
    ensures
        match res {
            Ok(p) => call_plan(r.source@, r.spec@, opname@, views(args@), opts@) == Ok::<
                CallPlanV,
                Seq<char>,
            >(p@),
            Err(m) => call_plan(r.source@, r.spec@, opname@, views(args@), opts@) == Err::<
                CallPlanV,
                Seq<char>,
            >(m@),
        },
{
    let ops = operations(&r.spec);
    let op: &Operation = match find_operation(&ops, opname) {
        Some(o) => o,
        None => {
            let mut m = owned("operation '");
            push_str(&mut m, opname);
            push_str(&mut m, "' not found");
            return Err(m);
        },
    };
    let st = match parse_call_args(args, opts) {
        Ok(s) => s,
        Err(m) => return Err(m),
    };
    proof {
        assert(st.flag_names@.len() == st.flag_vals@.len()) by {
            lemma_flag_lengths(views(args@), 0, call_init(opts@));
        }
    }
    let need = count_path_params(&op.params);
    let got = st.positionals.len();
    if got < need {
        let mut m = owned(opname);
        push_str(&mut m, " needs ");
        push_str(&mut m, decimal_string(need as u64).as_str());
        push_str(&mut m, " positional path parameter(s), got ");
        push_str(&mut m, decimal_string(got as u64).as_str());
        return Err(m);
    }
    if got > need {
        let mut m = owned(opname);
        push_str(&mut m, " accepts ");
        push_str(&mut m, decimal_string(need as u64).as_str());
        push_str(&mut m, " positional path parameter(s), got ");
        push_str(&mut m, decimal_string(got as u64).as_str());
        return Err(m);
    }
    let base = match base_url(r.source.as_str(), &r.spec) {
        Some(b) => b,
        None => return Err(owned("spec has no usable server url")),
    };
    let mut url = trim_trailing_slash(base.as_str());
    match fill_path_exec(op.path.as_str(), &st.positionals, &mut url) {
        Ok(_) => {},
        Err(m) => return Err(m),
    }
    let mut query = String::new();
    let mut headers = clone_strings(&st.headers);
    match bind_flags_exec(&op.params, &st.flag_names, &st.flag_vals, &mut query, &mut headers) {
        Ok(_) => {},
        Err(m) => return Err(m),
    }
    if !query.as_str().is_empty() {
        push_str(&mut url, "?");
        push_str(&mut url, query.as_str());
    }
    let body = match body_source_exec(&st.body_inline, &st.body_fields) {
        Ok(b) => b,
        Err(m) => return Err(m),
    };
    let plan = CallPlan {
        method: op.method.clone(),
        url,
        headers,
        body,
        dry_run: st.dry_run,
        jq_path: st.jq_path,
        text_out: st.text_out,
        timeout_ms: st.timeout_ms,
    };
    Ok(plan)
}

/// Flag names and values stay paired while the arguments are read.
proof fn lemma_flag_lengths(args: Seq<Seq<char>>, i: int, st: CallArgsV)
    requires
        st.flag_names.len() == st.flag_vals.len(),
    ensures
        call_from(args, i, st) matches Ok(out) ==> out.flag_names.len() == out.flag_vals.len(),
    decreases args.len() - i,
{
    if 0 <= i < args.len() {
        match call_step(args, i, st) {
            Err(_) => {},
            Ok((next, two)) => {
                lemma_flag_lengths(
                    args,
                    i + if two {
                        2int
                    } else {
                        1int
                    },
                    next,
                );
            },
        }
    }
}

/// A body makes the request JSON: the `Content-Type` header is added (as
/// `--header` would add it) when the body is not empty.
pub fn add_body_header(headers: &mut Vec<String>, body: &str) -> (r: Result<(), String>)
    ensures
        body@.len() == 0 ==> r is Ok && final(headers)@ == old(headers)@,
        body@.len() > 0 ==> match r {
            Ok(_) => header_add(views(old(headers)@), "Content-Type: application/json"@) == Ok::<
                Seq<Seq<char>>,
                Seq<char>,
            >(views(final(headers)@)),
            Err(m) => header_add(views(old(headers)@), "Content-Type: application/json"@) == Err::<
                Seq<Seq<char>>,
                Seq<char>,
            >(m@),
        },
{
    if body.is_empty() {
        Ok(())
    } else {
        add_header(headers, "Content-Type: application/json")
    }
}

} // verus!
