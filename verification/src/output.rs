//! What the command line writes on standard output: masked request lines for
//! `--dry-run`, and response bodies as JSON or plain text.
use vstd::prelude::*;

use crate::jq::{select, select_spec};
use crate::json::{compact, compact_string, models, Json, JsonV};
use crate::text::{
    chars_of, ends_with, find, find_from, first_index, has_suffix, index_from, lemma_first_index,
    lemma_index_from, lower_char, push_str, seq_eq, skip_ws, skip_ws_from, string_of, substring,
    to_lower, trim_start,
};

verus! {

broadcast use vstd::string::group_string_axioms;

// ---------------------------------------------------------------------------
// Credential names
// ---------------------------------------------------------------------------

/// ASCII lower case, with `_` read as `-`.
pub open spec fn norm_char(c: char) -> char {
    if c == '_' {
        '-'
    } else {
        lower_char(c)
    }
}

pub open spec fn normalized(s: Seq<char>) -> Seq<char> {
    s.map_values(|c: char| norm_char(c))
}

/// A header or query parameter whose value is a credential: after
/// normalising, one of `authorization`, `signature`, `secret`, `key`,
/// `apikey`, or a name ending in `-key`, `-key-id` or `-token`.
pub open spec fn sensitive(name: Seq<char>) -> bool {
    let n = normalized(name);
    ||| n == "authorization"@
    ||| n == "signature"@
    ||| n == "secret"@
    ||| n == "key"@
    ||| n == "apikey"@
    ||| ends_with(n, "-key"@)
    ||| ends_with(n, "-key-id"@)
    ||| ends_with(n, "-token"@)
}

pub fn is_sensitive_name(name: &str) -> (r: bool)
    ensures
        r == sensitive(name@),
{
    let v = chars_of(name);
    let mut norm: Vec<char> = Vec::new();
    let mut i: usize = 0;
    while i < v.len()
        invariant
            i <= v@.len(),
            norm@ == normalized(v@.take(i as int)),
        decreases v.len() - i,
    {
        let c = v[i];
        let n = if c == '_' {
            '-'
        } else {
            to_lower(c)
        };
        norm.push(n);
        i += 1;
        assert(norm@ =~= normalized(v@.take(i as int)));
    }
    assert(v@.take(v@.len() as int) =~= v@);
    let exact = seq_eq(&norm, &chars_of("authorization")) || seq_eq(&norm, &chars_of("signature"))
        || seq_eq(&norm, &chars_of("secret")) || seq_eq(&norm, &chars_of("key")) || seq_eq(
        &norm,
        &chars_of("apikey"),
    );
    if exact {
        return true;
    }
    let n = string_of(&norm);
    has_suffix(n.as_str(), "-key") || has_suffix(n.as_str(), "-key-id") || has_suffix(
        n.as_str(),
        "-token",
    )
}

/// Treating a name case-insensitively and `_` as `-` does not change
/// whether it is a credential name.
pub proof fn lemma_sensitive_ignores_case(name: Seq<char>)
    ensures
        sensitive(normalized(name)) == sensitive(name),
{
    assert(normalized(normalized(name)) =~= normalized(name));
}

// ---------------------------------------------------------------------------
// Masked request line (`--dry-run`)
// ---------------------------------------------------------------------------

/// One `name=value` pair of the query, the value hidden for credential names.
pub open spec fn masked_pair(p: Seq<char>) -> Seq<char> {
    let e = first_index(p, '=');
    if e < p.len() {
        let name = p.take(e);
        if sensitive(name) {
            name + "=***"@
        } else {
            name + "="@ + p.skip(e + 1)
        }
    } else {
        p
    }
}

/// The pairs of a query (split at `&`), each after its separator (`?` for
/// the first, `&` for the others).
pub open spec fn masked_query(s: Seq<char>, first: bool) -> Seq<char>
    decreases s.len(),
{
    let i = first_index(s, '&');
    let piece = s.take(i);
    let head = (if first {
        "?"@
    } else {
        "&"@
    }) + masked_pair(piece);
    if i < s.len() {
        proof {
            lemma_first_index(s, '&');
        }
        head + masked_query(s.skip(i + 1), false)
    } else {
        head
    }
}

/// The request line printed for `--dry-run`.
pub open spec fn masked_url(method: Seq<char>, url: Seq<char>) -> Seq<char> {
    let q = first_index(url, '?');
    if q < url.len() {
        method + " "@ + url.take(q) + masked_query(url.skip(q + 1), true) + "\n"@
    } else {
        method + " "@ + url + "\n"@
    }
}

fn push_masked_pair(out: &mut String, v: &Vec<char>, a: usize, b: usize)
    requires
        a <= b <= v@.len(),
    ensures
        final(out)@ == old(out)@ + masked_pair(v@.subrange(a as int, b as int)),
{
    let ghost p = v@.subrange(a as int, b as int);
    let e = find_from(v, '=', a);
    proof {
        lemma_index_from(v@, '=', a as int);
        lemma_first_index(p, '=');
    }
    if e < b {
        proof {
            assert(p[e - a] == '=');
            assert(first_index(p, '=') <= e - a);
            if first_index(p, '=') < e - a {
                assert(v@[a + first_index(p, '=')] == '=');
            }
        }
        let name = substring(v, a, e);
        assert(name@ =~= p.take(e - a));
        if is_sensitive_name(name.as_str()) {
            push_str(out, name.as_str());
            push_str(out, "=***");
        } else {
            push_str(out, name.as_str());
            push_str(out, "=");
            let val = substring(v, e + 1, b);
            assert(val@ =~= p.skip(e - a + 1));
            push_str(out, val.as_str());
        }
    } else {
        proof {
            if first_index(p, '=') < p.len() {
                assert(v@[a + first_index(p, '=')] == '=');
            }
        }
        let whole = substring(v, a, b);
        push_str(out, whole.as_str());
    }
}

pub fn print_url_masked(method: &str, url: &str) -> (r: String)
    ensures
        r@ == masked_url(method@, url@),
{
    let v = chars_of(url);
    let q = find(&v, '?');
    proof {
        lemma_first_index(v@, '?');
    }
    let mut out = String::new();
    push_str(&mut out, method);
    push_str(&mut out, " ");
    if q < v.len() {
        let head = substring(&v, 0, q);
        push_str(&mut out, head.as_str());
        assert(head@ =~= v@.take(q as int));
        let ghost prefix = out@;
        let ghost all = v@.skip(q + 1);
        let mut start: usize = q + 1;
        let mut first = true;
        loop
            invariant_except_break
                out@ + masked_query(v@.skip(start as int), first) == prefix + masked_query(
                    all,
                    true,
                ),
            invariant
                q + 1 <= start <= v@.len(),
                all == v@.skip(q + 1),
            ensures
                out@ == prefix + masked_query(all, true),
            decreases v@.len() - start,
        {
            let ghost rest = v@.skip(start as int);
            let ghost old_out = out@;
            let e = find_from(&v, '&', start);
            proof {
                lemma_index_from(v@, '&', start as int);
                lemma_first_index(rest, '&');
                let fi = first_index(rest, '&');
                if start + fi < e {
                    assert(v@[start + fi] == '&');
                }
                if e < v@.len() {
                    assert(rest[e - start] == '&');
                }
                assert(first_index(rest, '&') == e - start);
            }
            if first {
                push_str(&mut out, "?");
            } else {
                push_str(&mut out, "&");
            }
            push_masked_pair(&mut out, &v, start, e);
            assert(v@.subrange(start as int, e as int) =~= rest.take(e - start));
            if e >= v.len() {
                assert(out@ == old_out + masked_query(rest, first));
                break;
            }
            assert(rest.skip(e - start + 1) =~= v@.skip(e + 1));
            assert(out@ + masked_query(v@.skip(e + 1), false) == old_out + masked_query(
                rest,
                first,
            ));
            start = e + 1;
            first = false;
        }
        push_str(&mut out, "\n");
        assert(out@ =~= masked_url(method@, url@));
    } else {
        push_str(&mut out, url);
        push_str(&mut out, "\n");
        assert(out@ =~= masked_url(method@, url@));
    }
    out
}

// ---------------------------------------------------------------------------
// Masked headers (`--dry-run`)
// ---------------------------------------------------------------------------

/// The line printed for one header, its credential value hidden (a scheme
/// word such as `Bearer` stays visible).
pub open spec fn masked_header(h: Seq<char>) -> Seq<char> {
    let c = first_index(h, ':');
    if c < h.len() {
        let name = h.take(c);
        let val = trim_start(h.skip(c + 1));
        if sensitive(name) {
            let sp = first_index(val, ' ');
            if sp < val.len() {
                "  "@ + name + ": "@ + val.take(sp) + " ***\n"@
            } else {
                "  "@ + name + ": ***\n"@
            }
        } else {
            "  "@ + name + ": "@ + val + "\n"@
        }
    } else {
        "  "@ + h + "\n"@
    }
}

pub open spec fn masked_headers(hs: Seq<Seq<char>>) -> Seq<char>
    decreases hs.len(),
{
    if hs.len() == 0 {
        Seq::empty()
    } else {
        masked_headers(hs.drop_last()) + masked_header(hs.last())
    }
}

/// The views of a list of strings.
pub open spec fn views(v: Seq<String>) -> Seq<Seq<char>> {
    Seq::new(v.len(), |i: int| v[i]@)
}

fn push_masked_header(out: &mut String, h: &str)
    ensures
        final(out)@ == old(out)@ + masked_header(h@),
{
    let v = chars_of(h);
    let c = find(&v, ':');
    proof {
        lemma_first_index(v@, ':');
    }
    if c < v.len() {
        let name = substring(&v, 0, c);
        assert(name@ =~= v@.take(c as int));
        let s = skip_ws(&v, c + 1);
        let val_v = crate::text::chars_of(substring(&v, s, v.len()).as_str());
        proof {
            let rest = v@.skip(c + 1);
            assert(val_v@ =~= trim_start(rest)) by {
                crate::text::lemma_skip_ws_shift(v@, c + 1, 0);
            }
        }
        if is_sensitive_name(name.as_str()) {
            let sp = find(&val_v, ' ');
            proof {
                lemma_first_index(val_v@, ' ');
            }
            if sp < val_v.len() {
                push_str(out, "  ");
                push_str(out, name.as_str());
                push_str(out, ": ");
                let word = substring(&val_v, 0, sp);
                assert(word@ =~= val_v@.take(sp as int));
                push_str(out, word.as_str());
                push_str(out, " ***\n");
            } else {
                push_str(out, "  ");
                push_str(out, name.as_str());
                push_str(out, ": ***\n");
            }
        } else {
            push_str(out, "  ");
            push_str(out, name.as_str());
            push_str(out, ": ");
            let val = string_of(&val_v);
            push_str(out, val.as_str());
            push_str(out, "\n");
        }
    } else {
        push_str(out, "  ");
        push_str(out, h);
        push_str(out, "\n");
    }
    assert(out@ =~= old(out)@ + masked_header(h@));
}


pub fn print_headers_masked(headers: &Vec<String>) -> (r: String)
    ensures
        r@ == masked_headers(views(headers@)),
{
    let mut out = String::new();
    let mut i: usize = 0;
    while i < headers.len()
        invariant
            i <= headers@.len(),
            out@ == masked_headers(views(headers@).take(i as int)),
        decreases headers.len() - i,
    {
        assert(views(headers@).take(i + 1).drop_last() =~= views(headers@).take(i as int));
        push_masked_header(&mut out, headers[i].as_str());
        i += 1;
    }
    assert(views(headers@).take(headers@.len() as int) =~= views(headers@));
    out
}

/// A credential header never shows more of its value than the first word.
pub proof fn lemma_sensitive_header_masked(name: Seq<char>, value: Seq<char>)
    requires
        sensitive(name),
        !name.contains(':'),
    ensures
        masked_header(name + ":"@ + value) == "  "@ + name + ": "@ + (if first_index(
            trim_start(value),
            ' ',
        ) < trim_start(value).len() {
            trim_start(value).take(first_index(trim_start(value), ' ')) + " ***\n"@
        } else {
            "***\n"@
        }),
{
    let h = name + ":"@ + value;
    reveal_strlit(":");
    lemma_first_index(h, ':');
    lemma_first_index(name, ':');
    assert(h[name.len() as int] == ':');
    if first_index(h, ':') < name.len() {
        assert(h[first_index(h, ':')] == name[first_index(h, ':')]);
    }
    assert(first_index(h, ':') == name.len());
    assert(h.take(name.len() as int) =~= name);
    assert(h.skip(name.len() as int + 1) =~= value);
    reveal_strlit(" ***\n");
    reveal_strlit(": ***\n");
    reveal_strlit(": ");
    reveal_strlit("***\n");
    let val = trim_start(value);
    if first_index(val, ' ') < val.len() {
        assert(masked_header(h) =~= "  "@ + name + ": "@ + (val.take(first_index(val, ' '))
            + " ***\n"@));
    } else {
        assert(masked_header(h) =~= "  "@ + name + ": "@ + "***\n"@);
    }
}

// ---------------------------------------------------------------------------
// Response bodies
// ---------------------------------------------------------------------------

/// `-o text`: strings, numbers and booleans on lines of their own, arrays
/// element by element, `null` as nothing, objects in compact JSON.
pub open spec fn text_lines(v: JsonV) -> Seq<char>
    decreases v, 0nat,
{
    match v {
        JsonV::Null => Seq::empty(),
        JsonV::Bool(b) => if b {
            "true\n"@
        } else {
            "false\n"@
        },
        JsonV::Number(t) => t + "\n"@,
        JsonV::Str(s) => s + "\n"@,
        JsonV::Array(items) => text_items(items),
        JsonV::Object(_) => compact(v) + "\n"@,
    }
}

pub open spec fn text_items(items: Seq<JsonV>) -> Seq<char>
    decreases items, 1nat,
{
    if items.len() == 0 {
        Seq::empty()
    } else {
        text_items(items.drop_last()) + text_lines(items.last())
    }
}

#[verifier::loop_isolation(false)]
fn push_text(out: &mut String, value: &Json)
    ensures
        final(out)@ == old(out)@ + text_lines(value@),
    decreases value,
{
    match value {
        Json::Null => {},
        Json::Bool(b) => {
            if *b {
                push_str(out, "true\n");
            } else {
                push_str(out, "false\n");
            }
        },
        Json::Number(t) => {
            push_str(out, t.as_str());
            push_str(out, "\n");
        },
        Json::Str(s) => {
            push_str(out, s.as_str());
            push_str(out, "\n");
        },
        Json::Array(items) => {
            let ghost m = value@->Array_0;
            let ghost start = out@;
            let mut i: usize = 0;
            while i < items.len()
                invariant
                    i <= items@.len(),
                    m == value@->Array_0,
                    m.len() == items@.len(),
                    forall|k: int| 0 <= k < items@.len() ==> #[trigger] m[k] == items@[k]@,
                    out@ == start + text_items(m.take(i as int)),
                decreases items.len() - i,
            {
                proof {
                    assert(decreases_to!(*value => items@[i as int]));
                    assert(m.take(i + 1).drop_last() =~= m.take(i as int));
                    assert(m.take(i + 1).last() == items@[i as int]@);
                }
                push_text(out, &items[i]);
                i += 1;
            }
            assert(m.take(i as int) =~= m);
        },
        Json::Object(_) => {
            let c = compact_string(value);
            push_str(out, c.as_str());
            push_str(out, "\n");
        },
    }
    assert(out@ =~= old(out)@ + text_lines(value@));
}

/// The text form of a value.
pub fn print_text(value: &Json) -> (r: String)
    ensures
        r@ == text_lines(value@),
{
    let mut out = String::new();
    push_text(&mut out, value);
    assert(out@ =~= text_lines(value@));
    out
}

/// One value picked by `--jq`: `null` skipped, strings bare, other values in
/// text form (`-o text`) or compact JSON.
pub open spec fn selected_line(m: JsonV, text_out: bool) -> Seq<char> {
    match m {
        JsonV::Null => Seq::empty(),
        JsonV::Str(s) => s + "\n"@,
        _ => if text_out {
            text_lines(m)
        } else {
            compact(m) + "\n"@
        },
    }
}

pub open spec fn selected_lines(ms: Seq<JsonV>, text_out: bool) -> Seq<char>
    decreases ms.len(),
{
    if ms.len() == 0 {
        Seq::empty()
    } else {
        selected_lines(ms.drop_last(), text_out) + selected_line(ms.last(), text_out)
    }
}

/// What is printed for a JSON response.
pub open spec fn json_output(v: JsonV, jq_path: Option<Seq<char>>, text_out: bool) -> Seq<char> {
    match jq_path {
        Some(p) => selected_lines(select_spec(v, p), text_out),
        None => if text_out {
            text_lines(v)
        } else {
            compact(v) + "\n"@
        },
    }
}

pub fn print_json(value: &Json, jq_path: Option<&str>, text_out: bool) -> (r: String)
    ensures
        r@ == json_output(
            value@,
            match jq_path {
                Some(p) => Some(p@),
                None => None,
            },
            text_out,
        ),
{
    let mut out = String::new();
    match jq_path {
        Some(path) => {
            let matches = select(value, path);
            let ghost ms = models(matches@);
            let mut i: usize = 0;
            while i < matches.len()
                invariant
                    i <= matches@.len(),
                    ms == models(matches@),
                    out@ == selected_lines(ms.take(i as int), text_out),
                decreases matches.len() - i,
            {
                assert(ms.take(i + 1).drop_last() =~= ms.take(i as int));
                assert(ms.take(i + 1).last() == matches@[i as int]@);
                match &matches[i] {
                    Json::Null => {},
                    Json::Str(s) => {
                        push_str(&mut out, s.as_str());
                        push_str(&mut out, "\n");
                    },
                    m => {
                        if text_out {
                            push_text(&mut out, m);
                        } else {
                            let c = compact_string(m);
                            push_str(&mut out, c.as_str());
                            push_str(&mut out, "\n");
                        }
                    },
                }
                assert(out@ =~= selected_lines(ms.take(i + 1), text_out));
                i += 1;
            }
            assert(ms.take(i as int) =~= ms);
        },
        None => {
            if text_out {
                push_text(&mut out, value);
            } else {
                let c = compact_string(value);
                push_str(&mut out, c.as_str());
                push_str(&mut out, "\n");
            }
        },
    }
    assert(out@ =~= json_output(
        value@,
        match jq_path {
            Some(p) => Some(p@),
            None => None,
        },
        text_out,
    ));
    out
}

/// What is printed for a response body: the JSON output when the body
/// parsed as JSON (`parsed`), else the body itself, ending in a newline.
pub open spec fn body_output(
    parsed: Option<JsonV>,
    body: Seq<char>,
    jq_path: Option<Seq<char>>,
    text_out: bool,
) -> Seq<char> {
    match parsed {
        Some(v) => json_output(v, jq_path, text_out),
        None => if ends_with(body, "\n"@) {
            body
        } else {
            body + "\n"@
        },
    }
}

pub fn print_response_body(
    parsed: Option<&Json>,
    body: &str,
    jq_path: Option<&str>,
    text_out: bool,
) -> (r: String)
    ensures
        r@ == body_output(
            match parsed {
                Some(v) => Some(v@),
                None => None,
            },
            body@,
            match jq_path {
                Some(p) => Some(p@),
                None => None,
            },
            text_out,
        ),
{
    match parsed {
        Some(v) => print_json(v, jq_path, text_out),
        None => {
            let mut out = String::new();
            push_str(&mut out, body);
            if !has_suffix(body, "\n") {
                push_str(&mut out, "\n");
            }
            assert(out@ =~= body_output(
                None,
                body@,
                match jq_path {
                    Some(p) => Some(p@),
                    None => None,
                },
                text_out,
            ));
            out
        },
    }
}

} // verus!
