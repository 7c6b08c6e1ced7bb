//! Reading an OpenAPI (or Swagger 2.0) document: command names, parameter
//! lists, operations and the server URL.
use vstd::prelude::*;

use crate::json::{get, get_array, get_str, models, Json, JsonV};
use crate::text::{
    chars_of, first_index, has_prefix, index_from, lemma_first_index, lemma_index_from, lower_char,
    push_str, replace_pair, replace_two, split_on, starts_with, str_eq, string_of, substring,
    to_lower, trim_end_char, trim_end_of,
};
use vstd::string::StringSliceAdditionalSpecFns;
use vstd::utf8::encode_utf8;

verus! {

broadcast use vstd::string::group_string_axioms;

// ---------------------------------------------------------------------------
// kebab-case
// ---------------------------------------------------------------------------

/// Byte `i` of `bs` read as a character: names are read byte by byte.
pub open spec fn byte_char(bs: Seq<u8>, i: int) -> char {
    (bs[i] as u32) as char
}

pub open spec fn is_sep(c: char) -> bool {
    c == '_' || c == '-' || c == ' '
}

/// Whether an upper-case letter at `i` starts a new word: after a lower-case
/// letter or a digit, or as the last capital of a run followed by a
/// lower-case letter (`URLValue` → `url-value`).
pub open spec fn starts_word(bs: Seq<u8>, i: int) -> bool {
    i > 0 && {
        let p = byte_char(bs, i - 1);
        ||| 'a' <= p && p <= 'z'
        ||| '0' <= p && p <= '9'
        ||| 'A' <= p && p <= 'Z' && i + 1 < bs.len() && 'a' <= byte_char(bs, i + 1) && byte_char(
            bs,
            i + 1,
        ) <= 'z'
    }
}

/// `out` followed by a dash, unless it is empty or already ends in one.
pub open spec fn with_dash(out: Seq<char>) -> Seq<char> {
    if out.len() > 0 && out.last() != '-' {
        out.push('-')
    } else {
        out
    }
}

/// The text built from the first `n` bytes.
pub open spec fn kebab_upto(bs: Seq<u8>, n: int) -> Seq<char>
    decreases n,
{
    if n <= 0 {
        Seq::empty()
    } else {
        let out = kebab_upto(bs, n - 1);
        let i = n - 1;
        let c = byte_char(bs, i);
        if is_sep(c) {
            with_dash(out)
        } else if 'A' <= c && c <= 'Z' {
            (if starts_word(bs, i) {
                with_dash(out)
            } else {
                out
            }).push(lower_char(c))
        } else {
            out.push(c)
        }
    }
}

/// The kebab-case form of a name given by its UTF-8 bytes.
pub open spec fn kebab_bytes(bs: Seq<u8>) -> Seq<char> {
    trim_end_char(kebab_upto(bs, bs.len() as int), '-')
}

/// The kebab-case form of a name.
pub open spec fn kebab(s: Seq<char>) -> Seq<char> {
    kebab_bytes(encode_utf8(s))
}

pub fn kebab_case(s: &str) -> (r: String)
    ensures
        r@ == kebab(s@),
{
    let bytes = s.as_bytes();
    let mut out: Vec<char> = Vec::new();
    let mut i: usize = 0;
    while i < bytes.len()
        invariant
            i <= bytes@.len(),
            bytes@ == s.spec_bytes(),
            out@ == kebab_upto(bytes@, i as int),
        decreases bytes.len() - i,
    {
        let c = bytes[i] as char;
        assert(c == byte_char(bytes@, i as int));
        if c == '_' || c == '-' || c == ' ' {
            if out.len() > 0 && out[out.len() - 1] != '-' {
                out.push('-');
            }
        } else if c >= 'A' && c <= 'Z' {
            let mut need_dash = false;
            if i > 0 {
                let p = bytes[i - 1] as char;
                assert(p == byte_char(bytes@, i - 1));
                if (p >= 'a' && p <= 'z') || (p >= '0' && p <= '9') {
                    need_dash = true;
                } else if p >= 'A' && p <= 'Z' && i + 1 < bytes.len() {
                    let n = bytes[i + 1] as char;
                    assert(n == byte_char(bytes@, i + 1));
                    need_dash = n >= 'a' && n <= 'z';
                }
            }
            assert(need_dash == starts_word(bytes@, i as int));
            if out.len() > 0 && need_dash && out[out.len() - 1] != '-' {
                out.push('-');
            }
            out.push(to_lower(c));
        } else {
            out.push(c);
        }
        i += 1;
        assert(out@ =~= kebab_upto(bytes@, i as int));
    }
    let n = trim_end_of(&out, '-');
    substring(&out, 0, n)
}

/// The shape of a partial result: never a leading dash, never two dashes in
/// a row, and none of `_`, space or an ASCII capital.
pub open spec fn kebab_shaped(out: Seq<char>) -> bool {
    &&& out.len() > 0 ==> out[0] != '-'
    &&& forall|k: int| 0 <= k < out.len() - 1 ==> !(out[k] == '-' && #[trigger] out[k + 1] == '-')
    &&& forall|k: int|
        0 <= k < out.len() ==> #[trigger] out[k] != '_' && out[k] != ' ' && !('A' <= out[k]
            && out[k] <= 'Z')
}

proof fn lemma_kebab_upto_shaped(bs: Seq<u8>, n: int)
    requires
        0 <= n <= bs.len(),
    ensures
        kebab_shaped(kebab_upto(bs, n)),
    decreases n,
{
    if n > 0 {
        lemma_kebab_upto_shaped(bs, n - 1);
        let out = kebab_upto(bs, n - 1);
        let c = byte_char(bs, n - 1);
        let d = with_dash(out);
        assert(kebab_shaped(d)) by {
            if out.len() > 0 && out.last() != '-' {
                assert forall|k: int| 0 <= k < d.len() - 1 implies !(d[k] == '-' && #[trigger] d[k
                    + 1] == '-') by {
                    if k + 1 < out.len() {
                        assert(d[k] == out[k] && d[k + 1] == out[k + 1]);
                    }
                }
            }
        }
        if is_sep(c) {
        } else if 'A' <= c && c <= 'Z' {
            let e = if starts_word(bs, n - 1) {
                d
            } else {
                out
            };
            let l = lower_char(c);
            assert(kebab_shaped(e.push(l))) by {
                assert forall|k: int| 0 <= k < e.push(l).len() - 1 implies !(e.push(l)[k] == '-'
                    && #[trigger] e.push(l)[k + 1] == '-') by {
                    if k + 1 < e.len() {
                        assert(e.push(l)[k] == e[k] && e.push(l)[k + 1] == e[k + 1]);
                    }
                }
                assert forall|k: int| 0 <= k < e.push(l).len() implies #[trigger] e.push(l)[k]
                    != '_' && e.push(l)[k] != ' ' && !('A' <= e.push(l)[k] && e.push(l)[k]
                    <= 'Z') by {
                    if k < e.len() {
                        assert(e.push(l)[k] == e[k]);
                    }
                }
            }
        } else {
            assert(kebab_shaped(out.push(c))) by {
                assert forall|k: int| 0 <= k < out.push(c).len() - 1 implies !(out.push(c)[k]
                    == '-' && #[trigger] out.push(c)[k + 1] == '-') by {
                    if k + 1 < out.len() {
                        assert(out.push(c)[k] == out[k] && out.push(c)[k + 1] == out[k + 1]);
                    }
                }
                assert forall|k: int| 0 <= k < out.push(c).len() implies #[trigger] out.push(c)[k]
                    != '_' && out.push(c)[k] != ' ' && !('A' <= out.push(c)[k] && out.push(c)[k]
                    <= 'Z') by {
                    if k < out.len() {
                        assert(out.push(c)[k] == out[k]);
                    }
                }
            }
        }
    }
}

proof fn lemma_trim_end_shaped(s: Seq<char>)
    requires
        kebab_shaped(s),
    ensures
        kebab_shaped(trim_end_char(s, '-')),
        trim_end_char(s, '-').len() > 0 ==> trim_end_char(s, '-').last() != '-',
    decreases s.len(),
{
    if s.len() > 0 && s.last() == '-' {
        let t = s.drop_last();
        assert(kebab_shaped(t)) by {
            assert forall|k: int| 0 <= k < t.len() - 1 implies !(t[k] == '-' && #[trigger] t[k
                + 1] == '-') by {
                assert(s[k] == t[k] && s[k + 1] == t[k + 1]);
            }
            assert forall|k: int| 0 <= k < t.len() implies #[trigger] t[k] != '_' && t[k] != ' '
                && !('A' <= t[k] && t[k] <= 'Z') by {
                assert(s[k] == t[k]);
            }
        }
        lemma_trim_end_shaped(t);
    }
}

/// A kebab-case name has no ASCII capitals, no `_` or spaces, and its dashes
/// only ever stand alone between other characters (never first, last or
/// doubled).
pub proof fn lemma_kebab_shape(s: Seq<char>)
    ensures
        kebab_shaped(kebab(s)),
        kebab(s).len() > 0 ==> kebab(s).last() != '-',
{
    let bs = encode_utf8(s);
    lemma_kebab_upto_shaped(bs, bs.len() as int);
    lemma_trim_end_shaped(kebab_upto(bs, bs.len() as int));
}

/// The text with every `-` removed.
pub open spec fn without_dashes(t: Seq<char>) -> Seq<char>
    decreases t.len(),
{
    if t.len() == 0 {
        t
    } else if t.last() == '-' {
        without_dashes(t.drop_last())
    } else {
        without_dashes(t.drop_last()).push(t.last())
    }
}

/// The letters of a name, in order and lower-cased, without `_`, `-` and
/// spaces.
pub open spec fn name_letters(s: Seq<char>) -> Seq<char>
    decreases s.len(),
{
    if s.len() == 0 {
        s
    } else if is_sep(s.last()) {
        name_letters(s.drop_last())
    } else {
        name_letters(s.drop_last()).push(lower_char(s.last()))
    }
}

/// Read byte by byte, ASCII text gives back its own characters.
proof fn lemma_ascii_bytes(s: Seq<char>)
    requires
        vstd::utf8::is_ascii_chars(s),
    ensures
        encode_utf8(s).len() == s.len(),
        forall|i: int| 0 <= i < s.len() ==> #[trigger] byte_char(encode_utf8(s), i) == s[i],
{
    vstd::utf8::is_ascii_chars_encode_utf8(s);
    assert forall|i: int| 0 <= i < s.len() implies #[trigger] byte_char(encode_utf8(s), i)
        == s[i] by {
        assert(s[i] as u8 == encode_utf8(s)[i]);
        assert('\0' <= s[i] <= '\u{7f}');
    }
}

proof fn lemma_without_dashes_with_dash(out: Seq<char>)
    ensures
        without_dashes(with_dash(out)) == without_dashes(out),
{
    if out.len() > 0 && out.last() != '-' {
        assert(with_dash(out).drop_last() =~= out);
    }
}

proof fn lemma_without_dashes_push(t: Seq<char>, c: char)
    requires
        c != '-',
    ensures
        without_dashes(t.push(c)) == without_dashes(t).push(c),
{
    assert(t.push(c).drop_last() =~= t);
}

proof fn lemma_without_dashes_trim(t: Seq<char>)
    ensures
        without_dashes(trim_end_char(t, '-')) == without_dashes(t),
    decreases t.len(),
{
    if t.len() > 0 && t.last() == '-' {
        lemma_without_dashes_trim(t.drop_last());
    }
}

proof fn lemma_kebab_upto_letters(s: Seq<char>, n: int)
    requires
        vstd::utf8::is_ascii_chars(s),
        0 <= n <= s.len(),
    ensures
        without_dashes(kebab_upto(encode_utf8(s), n)) == name_letters(s.take(n)),
        forall|k: int|
            0 <= k < kebab_upto(encode_utf8(s), n).len() ==> '\0' <= #[trigger] kebab_upto(
                encode_utf8(s),
                n,
            )[k] <= '\u{7f}',
    decreases n,
{
    let bs = encode_utf8(s);
    lemma_ascii_bytes(s);
    if n == 0 {
        assert(s.take(0) =~= Seq::<char>::empty());
    } else {
        lemma_kebab_upto_letters(s, n - 1);
        assert(s.take(n).drop_last() =~= s.take(n - 1));
        assert(s.take(n).last() == s[n - 1]);
        let out = kebab_upto(bs, n - 1);
        let c = byte_char(bs, n - 1);
        assert(c == s[n - 1]);
        assert('\0' <= s[n - 1] <= '\u{7f}');
        lemma_without_dashes_with_dash(out);
        let d = with_dash(out);
        assert forall|k: int| 0 <= k < d.len() implies '\0' <= #[trigger] d[k] <= '\u{7f}' by {
            if k < out.len() {
                assert(d[k] == out[k]);
            }
        }
        if is_sep(c) {
        } else if 'A' <= c && c <= 'Z' {
            let e = if starts_word(bs, n - 1) {
                d
            } else {
                out
            };
            let l = lower_char(c);
            lemma_without_dashes_push(e, l);
            assert forall|k: int| 0 <= k < e.push(l).len() implies '\0' <= #[trigger] e.push(
                l,
            )[k] <= '\u{7f}' by {
                if k < e.len() {
                    assert(e.push(l)[k] == e[k]);
                }
            }
        } else {
            lemma_without_dashes_push(out, c);
            assert forall|k: int| 0 <= k < out.push(c).len() implies '\0' <= #[trigger] out.push(
                c,
            )[k] <= '\u{7f}' by {
                if k < out.len() {
                    assert(out.push(c)[k] == out[k]);
                }
            }
        }
    }
}

proof fn lemma_trim_end_ascii(t: Seq<char>)
    requires
        vstd::utf8::is_ascii_chars(t),
    ensures
        vstd::utf8::is_ascii_chars(trim_end_char(t, '-')),
    decreases t.len(),
{
    if t.len() > 0 && t.last() == '-' {
        assert forall|k: int| 0 <= k < t.drop_last().len() implies '\0' <= #[trigger] t.drop_last()[k]
            <= '\u{7f}' by {
            assert(t.drop_last()[k] == t[k]);
        }
        lemma_trim_end_ascii(t.drop_last());
    }
}

/// A kebab-shaped ASCII text is rebuilt character by character.
proof fn lemma_kebab_upto_fixed(r: Seq<char>, n: int)
    requires
        vstd::utf8::is_ascii_chars(r),
        kebab_shaped(r),
        0 <= n <= r.len(),
    ensures
        kebab_upto(encode_utf8(r), n) == r.take(n),
    decreases n,
{
    lemma_ascii_bytes(r);
    if n == 0 {
        assert(r.take(0) =~= Seq::<char>::empty());
    } else {
        lemma_kebab_upto_fixed(r, n - 1);
        let c = byte_char(encode_utf8(r), n - 1);
        assert(c == r[n - 1]);
        assert(r[n - 1] != '_' && r[n - 1] != ' ' && !('A' <= r[n - 1] && r[n - 1] <= 'Z'));
        if c == '-' {
            assert(n - 1 > 0);
            let k = n - 2;
            assert(!(r[k] == '-' && r[k + 1] == '-'));
            assert(r.take(n - 1).last() == r[n - 2]);
        }
        assert(r.take(n) =~= r.take(n - 1).push(r[n - 1]));
    }
}

/// For an ASCII name, kebab-case keeps its letters (in order and lower-cased;
/// only `_`, `-` and spaces are dropped, and dashes only added), and applying
/// it a second time changes nothing.
pub proof fn lemma_kebab_keeps_letters(s: Seq<char>)
    requires
        vstd::utf8::is_ascii_chars(s),
    ensures
        without_dashes(kebab(s)) == name_letters(s),
        kebab(kebab(s)) == kebab(s),
{
    let bs = encode_utf8(s);
    lemma_ascii_bytes(s);
    lemma_kebab_upto_letters(s, s.len() as int);
    assert(s.take(s.len() as int) =~= s);
    let t = kebab_upto(bs, bs.len() as int);
    lemma_without_dashes_trim(t);
    lemma_trim_end_ascii(t);
    let r = kebab(s);
    lemma_kebab_shape(s);
    lemma_kebab_upto_fixed(r, r.len() as int);
    lemma_ascii_bytes(r);
    assert(r.take(r.len() as int) =~= r);
    if r.len() > 0 {
        assert(r.last() != '-');
    }
}

// ---------------------------------------------------------------------------
// JSON pointers (`#/components/parameters/Limit`)
// ---------------------------------------------------------------------------

/// A pointer segment with `~1` read as `/` and then `~0` as `~`.
pub open spec fn unescape(seg: Seq<char>) -> Seq<char> {
    replace_pair(replace_pair(seg, '~', '1', '/'), '~', '0', '~')
}

pub open spec fn resolve_segs(cur: JsonV, segs: Seq<Seq<char>>) -> Option<JsonV>
    decreases segs.len(),
{
    if segs.len() == 0 {
        Some(cur)
    } else {
        match get(cur, unescape(segs[0])) {
            Some(next) => resolve_segs(next, segs.drop_first()),
            None => None,
        }
    }
}

/// The value a local JSON pointer (`#/a/b`) names in `root`.
pub open spec fn resolve(root: JsonV, ptr: Seq<char>) -> Option<JsonV> {
    if starts_with(ptr, "#/"@) {
        resolve_segs(root, split_on(ptr.skip(2), '/'))
    } else {
        None
    }
}

pub fn resolve_pointer(root: &Json, ptr: &str) -> (r: Option<Json>)
    ensures
        match r {
            Some(v) => resolve(root@, ptr@) == Some(v@),
            None => resolve(root@, ptr@) is None,
        },
{
    if !has_prefix(ptr, "#/") {
        return None;
    }
    let v = chars_of(ptr);
    proof {
        reveal_strlit("#/");
    }
    assert(v@.len() >= 2);
    let ghost all = v@.skip(2);
    let mut cur: &Json = root;
    let mut start: usize = 2;
    loop
        invariant
            2 <= start <= v@.len(),
            all == v@.skip(2),
            v@ == ptr@,
            starts_with(ptr@, "#/"@),
            resolve_segs(cur@, split_on(v@.skip(start as int), '/')) == resolve(root@, ptr@),
        decreases v@.len() - start,
    {
        let ghost rest = v@.skip(start as int);
        let e = crate::text::find_from(&v, '/', start);
        proof {
            lemma_index_from(v@, '/', start as int);
            lemma_first_index(rest, '/');
            let fi = first_index(rest, '/');
            if start + fi < e {
                assert(v@[start + fi] == '/');
            }
            if e < v@.len() {
                assert(rest[e - start] == '/');
            }
            assert(first_index(rest, '/') == e - start);
        }
        let seg = crate::text::substring(&v, start, e);
        assert(seg@ =~= rest.take(e - start));
        let sv = chars_of(seg.as_str());
        let k1 = replace_two(&sv, '~', '1', '/');
        let k2 = replace_two(&k1, '~', '0', '~');
        let key = string_of(&k2);
        assert(key@ == unescape(split_on(rest, '/')[0]));
        match cur.get(key.as_str()) {
            Some(next) => {
                if e >= v.len() {
                    assert(split_on(rest, '/') =~= seq![rest.take(e - start)]);
                    assert(split_on(rest, '/').drop_first() =~= Seq::<Seq<char>>::empty());
                    assert(resolve_segs(next@, Seq::<Seq<char>>::empty()) == Some(next@));
                    return Some(next.deep_copy());
                }
                assert(rest.skip(e - start + 1) =~= v@.skip(e + 1));
                assert(split_on(rest, '/').drop_first() == split_on(v@.skip(e + 1), '/'));
                cur = next;
                start = e + 1;
            },
            None => {
                return None;
            },
        }
    }
}

// ---------------------------------------------------------------------------
// Parameters
// ---------------------------------------------------------------------------

/// A parameter with a `$ref` replaced by what it points to (kept as it is when
/// the pointer does not resolve).
pub open spec fn param_ref_spec(spec: JsonV, p: JsonV) -> JsonV {
    match get_str(p, "$ref"@) {
        Some(r) => match resolve(spec, r) {
            Some(t) => t,
            None => p,
        },
        None => p,
    }
}

/// Two parameters are the same when both have a `name` and an `in`, equal
/// between them.
pub open spec fn same_param_spec(a: JsonV, b: JsonV) -> bool {
    &&& get_str(a, "name"@) is Some
    &&& get_str(a, "in"@) is Some
    &&& get_str(a, "name"@) == get_str(b, "name"@)
    &&& get_str(a, "in"@) == get_str(b, "in"@)
}

pub open spec fn same_index_from(params: Seq<JsonV>, p: JsonV, i: int) -> int
    decreases params.len() - i,
{
    if i < 0 || i >= params.len() {
        params.len() as int
    } else if same_param_spec(params[i], p) {
        i
    } else {
        same_index_from(params, p, i + 1)
    }
}

proof fn lemma_same_index_from(params: Seq<JsonV>, p: JsonV, i: int)
    requires
        0 <= i <= params.len(),
    ensures
        i <= same_index_from(params, p, i) <= params.len(),
    decreases params.len() - i,
{
    if i < params.len() && !same_param_spec(params[i], p) {
        lemma_same_index_from(params, p, i + 1);
    }
}

/// Adds one parameter: resolved, skipped without a `name`, replacing an
/// earlier one with the same name and location, else appended.
pub open spec fn add_param_spec(params: Seq<JsonV>, spec: JsonV, p: JsonV) -> Seq<JsonV> {
    let q = param_ref_spec(spec, p);
    if get(q, "name"@) is None {
        params
    } else {
        let i = same_index_from(params, q, 0);
        if 0 <= i < params.len() {
            params.update(i, q)
        } else {
            params.push(q)
        }
    }
}

pub open spec fn add_params_spec(params: Seq<JsonV>, spec: JsonV, list: Seq<JsonV>) -> Seq<JsonV>
    decreases list.len(),
{
    if list.len() == 0 {
        params
    } else {
        add_param_spec(add_params_spec(params, spec, list.drop_last()), spec, list.last())
    }
}

fn param_ref(spec: &Json, p: &Json) -> (r: Json)
    ensures
        r@ == param_ref_spec(spec@, p@),
{
    match p.get_str("$ref") {
        Some(r) => match resolve_pointer(spec, r.as_str()) {
            Some(t) => t,
            None => p.deep_copy(),
        },
        None => p.deep_copy(),
    }
}

fn opt_eq(a: Option<&String>, b: Option<&String>) -> (r: bool)
    ensures
        r == (match (a, b) {
            (Some(x), Some(y)) => x@ == y@,
            (None, None) => true,
            _ => false,
        }),
{
    match (a, b) {
        (Some(x), Some(y)) => str_eq(x.as_str(), y.as_str()),
        (None, None) => true,
        _ => false,
    }
}

fn same_param(a: &Json, b: &Json) -> (r: bool)
    ensures
        r == same_param_spec(a@, b@),
{
    let an = a.get_str("name");
    let ai = a.get_str("in");
    let bn = b.get_str("name");
    let bi = b.get_str("in");
    an.is_some() && ai.is_some() && opt_eq(an, bn) && opt_eq(ai, bi)
}

fn add_param(params: &mut Vec<Json>, spec: &Json, p: &Json)
    ensures
        models(final(params)@) == add_param_spec(models(old(params)@), spec@, p@),
{
    let q = param_ref(spec, p);
    if q.get("name").is_none() {
        return;
    }
    let ghost ps = models(params@);
    let mut i: usize = 0;
    while i < params.len()
        invariant
            i <= params@.len(),
            ps == models(params@),
            params@ == old(params)@,
            q@ == param_ref_spec(spec@, p@),
            get(q@, "name"@) is Some,
            same_index_from(ps, q@, 0) == same_index_from(ps, q@, i as int),
        decreases params.len() - i,
    {
        if same_param(&params[i], &q) {
            assert(same_index_from(ps, q@, i as int) == i as int);
            let ghost qv = q@;
            params.set(i, q);
            assert(models(params@) =~= ps.update(i as int, qv));
            return;
        }
        i += 1;
    }
    let ghost qv = q@;
    params.push(q);
    assert(models(params@) =~= ps.push(qv));
}

fn add_params(params: &mut Vec<Json>, spec: &Json, list: &Vec<Json>)
    ensures
        models(final(params)@) == add_params_spec(models(old(params)@), spec@, models(list@)),
{
    let mut i: usize = 0;
    while i < list.len()
        invariant
            i <= list@.len(),
            models(params@) == add_params_spec(models(old(params)@), spec@, models(list@).take(
                i as int,
            )),
        decreases list.len() - i,
    {
        assert(models(list@).take(i + 1).drop_last() =~= models(list@).take(i as int));
        assert(models(list@).take(i + 1).last() == list@[i as int]@);
        add_param(params, spec, &list[i]);
        i += 1;
    }
    assert(models(list@).take(list@.len() as int) =~= models(list@));
}

// ---------------------------------------------------------------------------
// Operations
// ---------------------------------------------------------------------------

/// One operation of the document.
pub struct Operation {
    pub op_id: String,
    pub kebab: String,
    pub method: String,
    pub path: String,
    pub summary: String,
    pub params: Vec<Json>,
    pub has_body: bool,
}

pub struct OperationV {
    pub op_id: Seq<char>,
    pub kebab: Seq<char>,
    pub method: Seq<char>,
    pub path: Seq<char>,
    pub summary: Seq<char>,
    pub params: Seq<JsonV>,
    pub has_body: bool,
}

impl View for Operation {
    type V = OperationV;

    open spec fn view(&self) -> OperationV {
        OperationV {
            op_id: self.op_id@,
            kebab: self.kebab@,
            method: self.method@,
            path: self.path@,
            summary: self.summary@,
            params: models(self.params@),
            has_body: self.has_body,
        }
    }
}

pub open spec fn op_views(ops: Seq<Operation>) -> Seq<OperationV> {
    Seq::new(ops.len(), |i: int| ops[i]@)
}

/// The HTTP methods looked for under each path, in this order.
pub open spec fn method_key(k: int) -> Seq<char> {
    if k == 0 {
        "get"@
    } else if k == 1 {
        "put"@
    } else if k == 2 {
        "post"@
    } else if k == 3 {
        "delete"@
    } else if k == 4 {
        "options"@
    } else if k == 5 {
        "head"@
    } else if k == 6 {
        "patch"@
    } else {
        "trace"@
    }
}

/// The same method in upper case, as operations carry it.
pub open spec fn method_upper(k: int) -> Seq<char> {
    if k == 0 {
        "GET"@
    } else if k == 1 {
        "PUT"@
    } else if k == 2 {
        "POST"@
    } else if k == 3 {
        "DELETE"@
    } else if k == 4 {
        "OPTIONS"@
    } else if k == 5 {
        "HEAD"@
    } else if k == 6 {
        "PATCH"@
    } else {
        "TRACE"@
    }
}

fn method_names(k: usize) -> (r: (&'static str, &'static str))
    requires
        k < 8,
    ensures
        r.0@ == method_key(k as int),
        r.1@ == method_upper(k as int),
{
    if k == 0 {
        ("get", "GET")
    } else if k == 1 {
        ("put", "PUT")
    } else if k == 2 {
        ("post", "POST")
    } else if k == 3 {
        ("delete", "DELETE")
    } else if k == 4 {
        ("options", "OPTIONS")
    } else if k == 5 {
        ("head", "HEAD")
    } else if k == 6 {
        ("patch", "PATCH")
    } else {
        ("trace", "TRACE")
    }
}

/// The operation (if any) for method `k` of the path item `item` at `path`.
pub open spec fn op_for_method(spec: JsonV, path: Seq<char>, item: JsonV, k: int) -> Seq<
    OperationV,
> {
    match get(item, method_key(k)) {
        Some(op) => if op is Object {
            match get_str(op, "operationId"@) {
                Some(id) => {
                    let base = match get_array(item, "parameters"@) {
                        Some(a) => add_params_spec(Seq::empty(), spec, a),
                        None => Seq::empty(),
                    };
                    let params = match get_array(op, "parameters"@) {
                        Some(a) => add_params_spec(base, spec, a),
                        None => base,
                    };
                    seq![
                        OperationV {
                            op_id: id,
                            kebab: kebab(id),
                            method: method_upper(k),
                            path,
                            summary: match get_str(op, "summary"@) {
                                Some(s) => s,
                                None => Seq::empty(),
                            },
                            params,
                            has_body: get(op, "requestBody"@) is Some,
                        },
                    ]
                },
                None => Seq::empty(),
            }
        } else {
            Seq::empty()
        },
        None => Seq::empty(),
    }
}

pub open spec fn ops_methods(spec: JsonV, path: Seq<char>, item: JsonV, n: int) -> Seq<
    OperationV,
>
    decreases n,
{
    if n <= 0 {
        Seq::empty()
    } else {
        ops_methods(spec, path, item, n - 1) + op_for_method(spec, path, item, n - 1)
    }
}

/// The operations of one path item (nothing unless it is an object).
pub open spec fn ops_for_path(spec: JsonV, path: Seq<char>, item: JsonV) -> Seq<OperationV> {
    if item is Object {
        ops_methods(spec, path, item, 8)
    } else {
        Seq::empty()
    }
}

pub open spec fn ops_paths(spec: JsonV, m: Seq<(Seq<char>, JsonV)>) -> Seq<OperationV>
    decreases m.len(),
{
    if m.len() == 0 {
        Seq::empty()
    } else {
        ops_paths(spec, m.drop_last()) + ops_for_path(spec, m.last().0, m.last().1)
    }
}

/// Every operation of the document with an `operationId`, path by path and,
/// within a path, in the order get, put, post, delete, options, head,
/// patch, trace.
pub open spec fn operations_spec(spec: JsonV) -> Seq<OperationV> {
    match get(spec, "paths"@) {
        Some(JsonV::Object(m)) => ops_paths(spec, m),
        _ => Seq::empty(),
    }
}

/// ASCII upper-casing of a text (other characters are unchanged).
pub open spec fn ascii_upper(s: Seq<char>) -> Seq<char> {
    Seq::new(
        s.len(),
        |i: int|
            if crate::text::is_lower(s[i]) {
                ((s[i] as u32) - 32) as char
            } else {
                s[i]
            },
    )
}

/// The method an operation carries is the upper-case form of the key it
/// stands under (`put` gives `PUT`, `delete` gives `DELETE`, ...).
pub proof fn lemma_method_is_upper_key(k: int)
    requires
        0 <= k < 8,
    ensures
        method_upper(k) == ascii_upper(method_key(k)),
{
    reveal_strlit("get");
    reveal_strlit("put");
    reveal_strlit("post");
    reveal_strlit("delete");
    reveal_strlit("options");
    reveal_strlit("head");
    reveal_strlit("patch");
    reveal_strlit("trace");
    reveal_strlit("GET");
    reveal_strlit("PUT");
    reveal_strlit("POST");
    reveal_strlit("DELETE");
    reveal_strlit("OPTIONS");
    reveal_strlit("HEAD");
    reveal_strlit("PATCH");
    reveal_strlit("TRACE");
    assert(method_upper(k) =~= ascii_upper(method_key(k)));
}

/// Operation `o` is the one under method key `k` of the path item `item`
/// at `path`.
pub open spec fn under_item(item: JsonV, path: Seq<char>, o: OperationV, k: int) -> bool {
    &&& 0 <= k < 8
    &&& o.path == path
    &&& get(item, method_key(k)) matches Some(op) && get_str(op, "operationId"@) == Some(o.op_id)
    &&& o.method == method_upper(k)
}

proof fn lemma_ops_methods_under(spec: JsonV, path: Seq<char>, item: JsonV, n: int, i: int)
    requires
        0 <= n <= 8,
        0 <= i < ops_methods(spec, path, item, n).len(),
    ensures
        exists|k: int| 0 <= k < n && #[trigger] under_item(item, path, ops_methods(spec, path, item, n)[i], k),
    decreases n,
{
    let pre = ops_methods(spec, path, item, n - 1);
    let one = op_for_method(spec, path, item, n - 1);
    assert(ops_methods(spec, path, item, n) == pre + one);
    if i < pre.len() {
        lemma_ops_methods_under(spec, path, item, n - 1, i);
        let k = choose|k: int| 0 <= k < n - 1 && #[trigger] under_item(item, path, pre[i], k);
        assert(under_item(item, path, ops_methods(spec, path, item, n)[i], k));
    } else {
        assert(one.len() > 0);
        assert(ops_methods(spec, path, item, n)[i] == one[0]);
        assert(under_item(item, path, one[0], n - 1));
    }
}

proof fn lemma_ops_paths_under(spec: JsonV, m: Seq<(Seq<char>, JsonV)>, i: int)
    requires
        0 <= i < ops_paths(spec, m).len(),
    ensures
        exists|j: int, k: int|
            0 <= j < m.len() && #[trigger] under_item(m[j].1, m[j].0, ops_paths(spec, m)[i], k),
    decreases m.len(),
{
    let pre = ops_paths(spec, m.drop_last());
    let last = ops_for_path(spec, m.last().0, m.last().1);
    if i < pre.len() {
        lemma_ops_paths_under(spec, m.drop_last(), i);
        let (j, k) = choose|j: int, k: int|
            0 <= j < m.drop_last().len() && #[trigger] under_item(
                m.drop_last()[j].1,
                m.drop_last()[j].0,
                pre[i],
                k,
            );
        assert(m.drop_last()[j] == m[j]);
        assert(under_item(m[j].1, m[j].0, ops_paths(spec, m)[i], k));
    } else {
        assert(m.last().1 is Object);
        lemma_ops_methods_under(spec, m.last().0, m.last().1, 8, i - pre.len());
        let k = choose|k: int|
            0 <= k < 8 && #[trigger] under_item(
                m.last().1,
                m.last().0,
                ops_methods(spec, m.last().0, m.last().1, 8)[i - pre.len()],
                k,
            );
        assert(under_item(m[m.len() - 1].1, m[m.len() - 1].0, ops_paths(spec, m)[i], k));
    }
}

/// Every operation of a document stands in `paths` under its own path, as
/// the member of its path item named by an HTTP method key, with its
/// operationId; and its method is that key in upper case.
pub proof fn lemma_operation_stands_under_its_method(spec: JsonV, i: int)
    requires
        0 <= i < operations_spec(spec).len(),
    ensures
        get(spec, "paths"@) matches Some(JsonV::Object(m)) && exists|j: int, k: int|
            #![trigger m[j], method_key(k)]
            {
                &&& 0 <= j < m.len()
                &&& 0 <= k < 8
                &&& m[j].0 == operations_spec(spec)[i].path
                &&& get(m[j].1, method_key(k)) matches Some(op) && get_str(op, "operationId"@)
                    == Some(operations_spec(spec)[i].op_id)
                &&& operations_spec(spec)[i].method == ascii_upper(method_key(k))
            },
{
    let m = get(spec, "paths"@)->Some_0->Object_0;
    lemma_ops_paths_under(spec, m, i);
    let (j, k) = choose|j: int, k: int|
        0 <= j < m.len() && #[trigger] under_item(m[j].1, m[j].0, ops_paths(spec, m)[i], k);
    lemma_method_is_upper_key(k);
    assert(operations_spec(spec)[i].method == ascii_upper(method_key(k)));
}

fn operation_for(spec: &Json, path: &String, item: &Json, k: usize, ops: &mut Vec<Operation>)
    requires
        k < 8,
    ensures
        op_views(final(ops)@) == op_views(old(ops)@) + op_for_method(spec@, path@, item@, k as int),
{
    let ghost before = op_views(ops@);
    let (key, upper) = method_names(k);
    let op = match item.get(key) {
        Some(o) => o,
        None => {
            assert(op_views(ops@) =~= before + op_for_method(spec@, path@, item@, k as int));
            return;
        },
    };
    if !op.is_object() {
        assert(op_views(ops@) =~= before + op_for_method(spec@, path@, item@, k as int));
        return;
    }
    let id = match op.get_str("operationId") {
        Some(i) => i,
        None => {
            assert(op_views(ops@) =~= before + op_for_method(spec@, path@, item@, k as int));
            return;
        },
    };
    let mut params: Vec<Json> = Vec::new();
    assert(models(params@) =~= Seq::<JsonV>::empty());
    match item.get_array("parameters") {
        Some(a) => add_params(&mut params, spec, a),
        None => {},
    }
    match op.get_array("parameters") {
        Some(a) => add_params(&mut params, spec, a),
        None => {},
    }
    let summary = match op.get_str("summary") {
        Some(s) => s.clone(),
        None => String::new(),
    };
    let o = Operation {
        op_id: id.clone(),
        kebab: kebab_case(id.as_str()),
        method: crate::text::owned(upper),
        path: path.clone(),
        summary,
        params,
        has_body: op.get("requestBody").is_some(),
    };
    ops.push(o);
    assert(op_views(ops@) =~= before + op_for_method(spec@, path@, item@, k as int));
}

/// The operations of a document.
pub fn operations(spec: &Json) -> (r: Vec<Operation>)
    ensures
        op_views(r@) == operations_spec(spec@),
{
    let mut ops: Vec<Operation> = Vec::new();
    let paths = match spec.get("paths") {
        Some(p) => p,
        None => {
            assert(op_views(ops@) =~= operations_spec(spec@));
            return ops;
        },
    };
    match paths {
        Json::Object(members) => {
            let ghost m = paths@->Object_0;
            assert(paths@ == JsonV::Object(m));
            let mut i: usize = 0;
            while i < members.len()
                invariant
                    i <= members@.len(),
                    m == paths@->Object_0,
                    m.len() == members@.len(),
                    get(spec@, "paths"@) == Some(JsonV::Object(m)),
                    forall|k: int|
                        0 <= k < members@.len() ==> #[trigger] m[k] == (
                            members@[k].0@,
                            members@[k].1@,
                        ),
                    op_views(ops@) == ops_paths(spec@, m.take(i as int)),
                decreases members.len() - i,
            {
                assert(m.take(i + 1).drop_last() =~= m.take(i as int));
                assert(m.take(i + 1).last() == m[i as int]);
                let path = &members[i].0;
                let item = &members[i].1;
                if item.is_object() {
                    let ghost start = op_views(ops@);
                    let mut k: usize = 0;
                    while k < 8
                        invariant
                            k <= 8,
                            op_views(ops@) == start + ops_methods(spec@, path@, item@, k as int),
                        decreases 8 - k,
                    {
                        operation_for(spec, path, item, k, &mut ops);
                        k += 1;
                        assert(op_views(ops@) =~= start + ops_methods(
                            spec@,
                            path@,
                            item@,
                            k as int,
                        ));
                    }
                } else {
                    assert(op_views(ops@) =~= op_views(ops@) + Seq::<OperationV>::empty());
                }
                i += 1;
            }
            assert(m.take(i as int) =~= m);
            ops
        },
        _ => {
            assert(op_views(ops@) =~= operations_spec(spec@));
            ops
        },
    }
}

/// The index of the first operation at or after `i` whose kebab name or
/// operationId is `cmd`, or the length.
pub open spec fn find_op_from(ops: Seq<OperationV>, cmd: Seq<char>, i: int) -> int
    decreases ops.len() - i,
{
    if i < 0 || i >= ops.len() {
        ops.len() as int
    } else if ops[i].kebab == cmd || ops[i].op_id == cmd {
        i
    } else {
        find_op_from(ops, cmd, i + 1)
    }
}

/// The first operation whose kebab name or operationId is `cmd`.
pub open spec fn find_op(ops: Seq<OperationV>, cmd: Seq<char>) -> Option<OperationV> {
    let i = find_op_from(ops, cmd, 0);
    if 0 <= i < ops.len() {
        Some(ops[i])
    } else {
        None
    }
}

proof fn lemma_find_op_from_first(ops: Seq<OperationV>, cmd: Seq<char>, k: int, i: int)
    requires
        0 <= k <= i < ops.len(),
        ops[i].kebab == cmd || ops[i].op_id == cmd,
        forall|j: int| k <= j < i ==> (#[trigger] ops[j]).kebab != cmd && ops[j].op_id != cmd,
    ensures
        find_op_from(ops, cmd, k) == i,
    decreases i - k,
{
    if k < i {
        lemma_find_op_from_first(ops, cmd, k + 1, i);
    }
}

/// An operation is called by its kebab-case name or its operationId, unless
/// an earlier operation answers to the same name.
pub proof fn lemma_operation_found_by_name(ops: Seq<OperationV>, i: int, cmd: Seq<char>)
    requires
        0 <= i < ops.len(),
        cmd == ops[i].kebab || cmd == ops[i].op_id,
        forall|j: int| 0 <= j < i ==> (#[trigger] ops[j]).kebab != cmd && ops[j].op_id != cmd,
    ensures
        find_op(ops, cmd) == Some(ops[i]),
{
    lemma_find_op_from_first(ops, cmd, 0, i);
}

pub fn find_operation<'a>(ops: &'a Vec<Operation>, cmd: &str) -> (r: Option<&'a Operation>)
    ensures
        match r {
            Some(o) => find_op(op_views(ops@), cmd@) == Some(o@),
            None => find_op(op_views(ops@), cmd@) is None,
        },
{
    let ghost os = op_views(ops@);
    let mut i: usize = 0;
    while i < ops.len()
        invariant
            i <= ops@.len(),
            os == op_views(ops@),
            find_op_from(os, cmd@, 0) == find_op_from(os, cmd@, i as int),
        decreases ops.len() - i,
    {
        if str_eq(ops[i].kebab.as_str(), cmd) || str_eq(ops[i].op_id.as_str(), cmd) {
            assert(find_op_from(os, cmd@, i as int) == i as int);
            return Some(&ops[i]);
        }
        i += 1;
    }
    None
}

// ---------------------------------------------------------------------------
// Server URL
// ---------------------------------------------------------------------------

pub open spec fn is_http(s: Seq<char>) -> bool {
    starts_with(s, "http://"@) || starts_with(s, "https://"@)
}

/// `source.split('/').take(3).join("/")`: the text before the third `/`.
pub open spec fn origin(s: Seq<char>) -> Seq<char> {
    let a = first_index(s, '/');
    let b = index_from(s, '/', a + 1);
    let c = index_from(s, '/', b + 1);
    s.take(c)
}

/// What the first entry of `servers` gives, when it gives a URL.
pub open spec fn server_url(source: Seq<char>, spec: JsonV) -> Option<Seq<char>> {
    match get_array(spec, "servers"@) {
        Some(a) => if a.len() > 0 {
            match get_str(a[0], "url"@) {
                Some(url) => if is_http(url) {
                    Some(url)
                } else if starts_with(url, "/"@) && is_http(source) {
                    Some(origin(source) + url)
                } else if url.len() > 0 {
                    Some(url)
                } else {
                    None
                },
                None => None,
            }
        } else {
            None
        },
        None => None,
    }
}

/// The base URL of the API: from `servers` (OpenAPI 3), else from `host`,
/// `schemes` and `basePath` (Swagger 2.0), else the source itself when it
/// is an http(s) URL.
pub open spec fn base_url_spec(source: Seq<char>, spec: JsonV) -> Option<Seq<char>> {
    match server_url(source, spec) {
        Some(u) => Some(u),
        None => {
            let host = match get_str(spec, "host"@) {
                Some(h) => h,
                None => Seq::empty(),
            };
            if host.len() > 0 {
                let first_scheme = match get_array(spec, "schemes"@) {
                    Some(a) => if a.len() > 0 {
                        match a[0] {
                            JsonV::Str(s) => Some(s),
                            _ => None,
                        }
                    } else {
                        None
                    },
                    None => None,
                };
                let scheme = match first_scheme {
                    Some(s) => s,
                    None => if starts_with(source, "http://"@) {
                        "http"@
                    } else {
                        "https"@
                    },
                };
                let base = match get_str(spec, "basePath"@) {
                    Some(b) => b,
                    None => Seq::empty(),
                };
                if starts_with(base, "/"@) {
                    Some(scheme + "://"@ + host + base)
                } else if base.len() > 0 {
                    Some(scheme + "://"@ + host + "/"@ + base)
                } else {
                    Some(scheme + "://"@ + host)
                }
            } else if is_http(source) {
                Some(source)
            } else {
                None
            }
        },
    }
}

/// A Swagger 2.0 document (no `servers`) with a `host` and a `schemes`
/// array whose first entry is the string `scheme`: the base URL is built
/// with that first scheme, `scheme://host`, followed by the `basePath` if
/// there is one.
pub proof fn lemma_base_url_first_scheme(
    source: Seq<char>,
    spec: JsonV,
    host: Seq<char>,
    schemes: Seq<JsonV>,
    scheme: Seq<char>,
)
    requires
        get(spec, "servers"@) is None,
        get(spec, "host"@) == Some(JsonV::Str(host)),
        host.len() > 0,
        get(spec, "schemes"@) == Some(JsonV::Array(schemes)),
        schemes.len() > 0,
        schemes[0] == JsonV::Str(scheme),
    ensures
        base_url_spec(source, spec) matches Some(u) && starts_with(u, scheme + "://"@ + host),
        get(spec, "basePath"@) is None ==> base_url_spec(source, spec) == Some(
            scheme + "://"@ + host,
        ),
{
    let pre = scheme + "://"@ + host;
    let u = base_url_spec(source, spec)->Some_0;
    assert(u.take(pre.len() as int) =~= pre);
}

fn is_http_exec(s: &str) -> (r: bool)
    ensures
        r == is_http(s@),
{
    has_prefix(s, "http://") || has_prefix(s, "https://")
}

fn origin_exec(s: &str) -> (r: String)
    ensures
        r@ == origin(s@),
{
    let v = chars_of(s);
    let a = crate::text::find(&v, '/');
    proof {
        lemma_first_index(v@, '/');
    }
    let b = if a < v.len() {
        crate::text::find_from(&v, '/', a + 1)
    } else {
        v.len()
    };
    proof {
        if a < v@.len() {
            lemma_index_from(v@, '/', a + 1);
        }
    }
    let c = if b < v.len() {
        crate::text::find_from(&v, '/', b + 1)
    } else {
        v.len()
    };
    proof {
        if b < v@.len() {
            lemma_index_from(v@, '/', b + 1);
        }
    }
    substring(&v, 0, c)
}

fn server_url_exec(source: &str, spec: &Json) -> (r: Option<String>)
    ensures
        match r {
            Some(u) => server_url(source@, spec@) == Some(u@),
            None => server_url(source@, spec@) is None,
        },
{
    let servers = match spec.get_array("servers") {
        Some(a) => a,
        None => return None,
    };
    if servers.len() == 0 {
        return None;
    }
    assert(models(servers@)[0] == servers@[0]@);
    let url = match servers[0].get_str("url") {
        Some(u) => u,
        None => return None,
    };
    if is_http_exec(url.as_str()) {
        return Some(url.clone());
    }
    if has_prefix(url.as_str(), "/") && is_http_exec(source) {
        let mut r = origin_exec(source);
        push_str(&mut r, url.as_str());
        return Some(r);
    }
    if !url.as_str().is_empty() {
        return Some(url.clone());
    }
    None
}

pub fn base_url(source: &str, spec: &Json) -> (r: Option<String>)
    ensures
        match r {
            Some(u) => base_url_spec(source@, spec@) == Some(u@),
            None => base_url_spec(source@, spec@) is None,
        },
{
    match server_url_exec(source, spec) {
        Some(u) => return Some(u),
        None => {},
    }
    let host: String = match spec.get_str("host") {
        Some(h) => h.clone(),
        None => String::new(),
    };
    if !host.as_str().is_empty() {
        let first_scheme: Option<String> = match spec.get_array("schemes") {
            Some(a) => if a.len() > 0 {
                assert(models(a@)[0] == a@[0]@);
                match &a[0] {
                    Json::Str(s) => Some(s.clone()),
                    _ => None,
                }
            } else {
                None
            },
            None => None,
        };
        let scheme: String = match first_scheme {
            Some(s) => s,
            None => if has_prefix(source, "http://") {
                crate::text::owned("http")
            } else {
                crate::text::owned("https")
            },
        };
        let base: String = match spec.get_str("basePath") {
            Some(b) => b.clone(),
            None => String::new(),
        };
        let mut r = scheme;
        push_str(&mut r, "://");
        push_str(&mut r, host.as_str());
        if has_prefix(base.as_str(), "/") {
            push_str(&mut r, base.as_str());
        } else if !base.as_str().is_empty() {
            push_str(&mut r, "/");
            push_str(&mut r, base.as_str());
        }
        return Some(r);
    }
    if is_http_exec(source) {
        return Some(crate::text::owned(source));
    }
    None
}

} // verus!
