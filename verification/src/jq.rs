//! The `--jq` path filter: `a.b[0].c`, `a[]`, `a[*]`.
use vstd::prelude::*;

use crate::json::{get, models, Json, JsonV};
use crate::text::{
    all_digits, chars_of, decimal, digits_value, is_digit, lemma_decimal, parse_digits, seq_eq,
};

verus! {

broadcast use vstd::string::group_string_axioms;

/// `usize::from_str`: an optional `+` and then at least one digit, within range.
pub open spec fn parse_index(s: Seq<char>) -> Option<usize> {
    let d = if s.len() > 0 && s[0] == '+' {
        s.skip(1)
    } else {
        s
    };
    if d.len() > 0 && all_digits(d) && digits_value(d) <= usize::MAX {
        Some(digits_value(d) as usize)
    } else {
        None
    }
}

/// The members named `key` of the objects among `vals`.
pub open spec fn step_key_spec(vals: Seq<JsonV>, key: Seq<char>) -> Seq<JsonV>
    decreases vals.len(),
{
    if vals.len() == 0 {
        Seq::empty()
    } else {
        step_key_spec(vals.drop_last(), key) + match get(vals.last(), key) {
            Some(x) => seq![x],
            None => Seq::empty(),
        }
    }
}

/// What one bracket does to one value: every element for `[]` and `[*]`,
/// the element at a number, nothing otherwise.
pub open spec fn index_one(v: JsonV, idx: Seq<char>) -> Seq<JsonV> {
    match v {
        JsonV::Array(a) => if idx == "*"@ || idx.len() == 0 {
            a
        } else {
            match parse_index(idx) {
                Some(i) => if (i as int) < a.len() {
                    seq![a[i as int]]
                } else {
                    Seq::empty()
                },
                None => Seq::empty(),
            }
        },
        _ => Seq::empty(),
    }
}

pub open spec fn step_index_spec(vals: Seq<JsonV>, idx: Seq<char>) -> Seq<JsonV>
    decreases vals.len(),
{
    if vals.len() == 0 {
        Seq::empty()
    } else {
        step_index_spec(vals.drop_last(), idx) + index_one(vals.last(), idx)
    }
}

/// The path read from position `i` on, with the current values `cur`, the
/// pending segment `seg` and whether a bracket is open.
pub open spec fn select_from(
    path: Seq<char>,
    i: int,
    cur: Seq<JsonV>,
    seg: Seq<char>,
    in_bracket: bool,
) -> Seq<JsonV>
    decreases path.len() - i,
{
    if i < 0 || i >= path.len() {
        if seg.len() > 0 {
            step_key_spec(cur, seg)
        } else {
            cur
        }
    } else {
        let ch = path[i];
        if ch == '[' {
            let next = if seg.len() > 0 {
                step_key_spec(cur, seg)
            } else {
                cur
            };
            select_from(path, i + 1, next, Seq::empty(), true)
        } else if ch == ']' {
            if in_bracket {
                select_from(path, i + 1, step_index_spec(cur, seg), Seq::empty(), false)
            } else {
                select_from(path, i + 1, cur, seg, false)
            }
        } else if ch == '.' && !in_bracket {
            let next = if seg.len() > 0 {
                step_key_spec(cur, seg)
            } else {
                cur
            };
            select_from(path, i + 1, next, Seq::empty(), in_bracket)
        } else {
            select_from(path, i + 1, cur, seg.push(ch), in_bracket)
        }
    }
}

/// The values that `path` selects from `v`.
pub open spec fn select_spec(v: JsonV, path: Seq<char>) -> Seq<JsonV> {
    select_from(path, 0, seq![v], Seq::empty(), false)
}

fn parse_index_exec(s: &Vec<char>) -> (r: Option<usize>)
    ensures
        r == parse_index(s@),
{
    let start: usize = if s.len() > 0 && s[0] == '+' {
        1
    } else {
        0
    };
    let ghost d = if s@.len() > 0 && s@[0] == '+' {
        s@.skip(1)
    } else {
        s@
    };
    assert(d =~= s@.subrange(start as int, s@.len() as int));
    if start >= s.len() {
        return None;
    }
    let mut i = start;
    while i < s.len()
        invariant
            start <= i <= s@.len(),
            d == s@.subrange(start as int, s@.len() as int),
            d == (if s@.len() > 0 && s@[0] == '+' {
                s@.skip(1)
            } else {
                s@
            }),
            forall|k: int| start <= k < i ==> #[trigger] is_digit(s@[k]),
        decreases s.len() - i,
    {
        if !(s[i] >= '0' && s[i] <= '9') {
            assert(d[i - start] == s@[i as int]);
            assert(!is_digit(d[i - start]));
            return None;
        }
        i += 1;
    }
    assert forall|k: int| 0 <= k < d.len() implies #[trigger] is_digit(d[k]) by {
        assert(d[k] == s@[k + start]);
    }
    match parse_digits(s, start, s.len(), usize::MAX as u64) {
        Some(n) => Some(n as usize),
        None => None,
    }
}

proof fn lemma_models_push(s: Seq<Json>, x: Json)
    ensures
        models(s.push(x)) == models(s).push(x@),
{
    assert(models(s.push(x)) =~= models(s).push(x@));
}

fn step_key(values: Vec<Json>, key: &Vec<char>) -> (r: Vec<Json>)
    ensures
        models(r@) == step_key_spec(models(values@), key@),
{
    let mut out: Vec<Json> = Vec::new();
    let ghost key_s = key@;
    let k = crate::text::string_of(key);
    let mut i: usize = 0;
    while i < values.len()
        invariant
            i <= values@.len(),
            k@ == key_s,
            key_s == key@,
            models(out@) == step_key_spec(models(values@).take(i as int), key_s),
        decreases values.len() - i,
    {
        assert(models(values@).take(i + 1).drop_last() =~= models(values@).take(i as int));
        assert(models(values@).take(i + 1).last() == values@[i as int]@);
        match values[i].get(k.as_str()) {
            Some(val) => {
                let c = val.deep_copy();
                out.push(c);
                assert(models(out@) =~= step_key_spec(models(values@).take(i + 1), key_s));
            },
            None => {
                assert(models(out@) =~= step_key_spec(models(values@).take(i + 1), key_s));
            },
        }
        i += 1;
    }
    assert(models(values@).take(values@.len() as int) =~= models(values@));
    out
}

fn index_one_exec(out: &mut Vec<Json>, v: &Json, idx: &Vec<char>)
    ensures
        models(final(out)@) == models(old(out)@) + index_one(v@, idx@),
{
    let ghost start = models(out@);
    match v {
        Json::Array(a) => {
            proof {
                crate::json::lemma_array_model(*a);
            }
            let star = chars_of("*");
            if seq_eq(idx, &star) || idx.len() == 0 {
                let mut j: usize = 0;
                while j < a.len()
                    invariant
                        j <= a@.len(),
                        models(out@) == start + models(a@).take(j as int),
                    decreases a.len() - j,
                {
                    let c = a[j].deep_copy();
                    let ghost before = out@;
                    out.push(c);
                    proof {
                        lemma_models_push(before, c);
                        assert(models(a@)[j as int] == c@);
                        assert(models(a@).take(j + 1) =~= models(a@).take(j as int).push(c@));
                    }
                    j += 1;
                    assert(models(out@) =~= start + models(a@).take(j as int));
                }
                assert(models(a@).take(a@.len() as int) =~= models(a@));
            } else {
                match parse_index_exec(idx) {
                    Some(n) => {
                        if n < a.len() {
                            let c = a[n].deep_copy();
                            out.push(c);
                            assert(models(out@) =~= start + index_one(v@, idx@));
                        } else {
                            assert(models(out@) =~= start + index_one(v@, idx@));
                        }
                    },
                    None => {
                        assert(models(out@) =~= start + index_one(v@, idx@));
                    },
                }
            }
        },
        _ => {
            assert(models(out@) =~= start + index_one(v@, idx@));
        },
    }
}

fn step_index(values: Vec<Json>, idx: &Vec<char>) -> (r: Vec<Json>)
    ensures
        models(r@) == step_index_spec(models(values@), idx@),
{
    let mut out: Vec<Json> = Vec::new();
    let mut i: usize = 0;
    while i < values.len()
        invariant
            i <= values@.len(),
            models(out@) == step_index_spec(models(values@).take(i as int), idx@),
        decreases values.len() - i,
    {
        assert(models(values@).take(i + 1).drop_last() =~= models(values@).take(i as int));
        assert(models(values@).take(i + 1).last() == values@[i as int]@);
        index_one_exec(&mut out, &values[i], idx);
        i += 1;
    }
    assert(models(values@).take(values@.len() as int) =~= models(values@));
    out
}

/// All the values that `path` selects from `value`, in order.
pub fn select(value: &Json, path: &str) -> (r: Vec<Json>)
    ensures
        models(r@) == select_spec(value@, path@),
{
    let p = chars_of(path);
    let mut cur: Vec<Json> = Vec::new();
    cur.push(value.deep_copy());
    assert(models(cur@) =~= seq![value@]);
    let mut seg: Vec<char> = Vec::new();
    let mut in_bracket = false;
    let mut i: usize = 0;
    while i < p.len()
        invariant
            i <= p@.len(),
            p@ == path@,
            select_from(p@, i as int, models(cur@), seg@, in_bracket) == select_spec(
                value@,
                path@,
            ),
        decreases p.len() - i,
    {
        let ch = p[i];
        let ghost old_cur = models(cur@);
        let ghost old_seg = seg@;
        let ghost old_inb = in_bracket;
        if ch == '[' {
            if seg.len() > 0 {
                cur = step_key(cur, &seg);
                seg = Vec::new();
            }
            in_bracket = true;
            assert(seg@ =~= Seq::<char>::empty());
        } else if ch == ']' {
            if in_bracket {
                cur = step_index(cur, &seg);
                seg = Vec::new();
                assert(seg@ =~= Seq::<char>::empty());
            }
            in_bracket = false;
        } else if ch == '.' && !in_bracket {
            if seg.len() > 0 {
                cur = step_key(cur, &seg);
                seg = Vec::new();
            }
            assert(seg@ =~= Seq::<char>::empty());
        } else {
            seg.push(ch);
        }
        assert(select_from(p@, i as int, old_cur, old_seg, old_inb) == select_from(
            p@,
            i + 1,
            models(cur@),
            seg@,
            in_bracket,
        ));
        i += 1;
    }
    if seg.len() > 0 {
        cur = step_key(cur, &seg);
    }
    cur
}

/// The state after reading `path` from `i` on: the current values, the
/// pending segment and whether a bracket is open.
pub open spec fn walk(
    path: Seq<char>,
    i: int,
    cur: Seq<JsonV>,
    seg: Seq<char>,
    in_bracket: bool,
) -> (Seq<JsonV>, Seq<char>, bool)
    decreases path.len() - i,
{
    if i < 0 || i >= path.len() {
        (cur, seg, in_bracket)
    } else {
        let ch = path[i];
        if ch == '[' {
            walk(path, i + 1, finish(cur, seg), Seq::empty(), true)
        } else if ch == ']' {
            if in_bracket {
                walk(path, i + 1, step_index_spec(cur, seg), Seq::empty(), false)
            } else {
                walk(path, i + 1, cur, seg, false)
            }
        } else if ch == '.' && !in_bracket {
            walk(path, i + 1, finish(cur, seg), Seq::empty(), in_bracket)
        } else {
            walk(path, i + 1, cur, seg.push(ch), in_bracket)
        }
    }
}

/// A pending segment applied as a key, if there is one.
pub open spec fn finish(cur: Seq<JsonV>, seg: Seq<char>) -> Seq<JsonV> {
    if seg.len() > 0 {
        step_key_spec(cur, seg)
    } else {
        cur
    }
}

/// Whether a bracket is still open after reading `path` from `i` on.
pub open spec fn bracket_open_from(path: Seq<char>, i: int, in_bracket: bool) -> bool
    decreases path.len() - i,
{
    if i < 0 || i >= path.len() {
        in_bracket
    } else if path[i] == '[' {
        bracket_open_from(path, i + 1, true)
    } else if path[i] == ']' {
        bracket_open_from(path, i + 1, false)
    } else {
        bracket_open_from(path, i + 1, in_bracket)
    }
}

/// What `q` selects from each of `vals`, one after the other.
pub open spec fn select_each(vals: Seq<JsonV>, q: Seq<char>) -> Seq<JsonV>
    decreases vals.len(),
{
    if vals.len() == 0 {
        Seq::empty()
    } else {
        select_each(vals.drop_last(), q) + select_spec(vals.last(), q)
    }
}

proof fn lemma_walk_bracket(path: Seq<char>, i: int, cur: Seq<JsonV>, seg: Seq<char>, ib: bool)
    requires
        0 <= i <= path.len(),
    ensures
        walk(path, i, cur, seg, ib).2 == bracket_open_from(path, i, ib),
    decreases path.len() - i,
{
    if i < path.len() {
        let ch = path[i];
        if ch == '[' {
            lemma_walk_bracket(path, i + 1, finish(cur, seg), Seq::empty(), true);
        } else if ch == ']' {
            if ib {
                lemma_walk_bracket(path, i + 1, step_index_spec(cur, seg), Seq::empty(), false);
            } else {
                lemma_walk_bracket(path, i + 1, cur, seg, false);
            }
        } else if ch == '.' && !ib {
            lemma_walk_bracket(path, i + 1, finish(cur, seg), Seq::empty(), ib);
        } else {
            lemma_walk_bracket(path, i + 1, cur, seg.push(ch), ib);
        }
    }
}

proof fn lemma_select_shift(
    p: Seq<char>,
    r: Seq<char>,
    j: int,
    cur: Seq<JsonV>,
    seg: Seq<char>,
    ib: bool,
)
    requires
        0 <= j <= r.len(),
    ensures
        select_from(p + r, p.len() + j, cur, seg, ib) == select_from(r, j, cur, seg, ib),
    decreases r.len() - j,
{
    if j < r.len() {
        assert((p + r)[p.len() + j] == r[j]);
        let ch = r[j];
        if ch == '[' {
            lemma_select_shift(p, r, j + 1, finish(cur, seg), Seq::empty(), true);
        } else if ch == ']' {
            if ib {
                lemma_select_shift(p, r, j + 1, step_index_spec(cur, seg), Seq::empty(), false);
            } else {
                lemma_select_shift(p, r, j + 1, cur, seg, false);
            }
        } else if ch == '.' && !ib {
            lemma_select_shift(p, r, j + 1, finish(cur, seg), Seq::empty(), ib);
        } else {
            lemma_select_shift(p, r, j + 1, cur, seg.push(ch), ib);
        }
    }
}

proof fn lemma_select_concat(
    p: Seq<char>,
    r: Seq<char>,
    i: int,
    cur: Seq<JsonV>,
    seg: Seq<char>,
    ib: bool,
)
    requires
        0 <= i <= p.len(),
    ensures
        select_from(p + r, i, cur, seg, ib) == {
            let w = walk(p, i, cur, seg, ib);
            select_from(r, 0, w.0, w.1, w.2)
        },
    decreases p.len() - i,
{
    if i == p.len() {
        lemma_select_shift(p, r, 0, cur, seg, ib);
    } else {
        assert((p + r)[i] == p[i]);
        let ch = p[i];
        if ch == '[' {
            lemma_select_concat(p, r, i + 1, finish(cur, seg), Seq::empty(), true);
        } else if ch == ']' {
            if ib {
                lemma_select_concat(p, r, i + 1, step_index_spec(cur, seg), Seq::empty(), false);
            } else {
                lemma_select_concat(p, r, i + 1, cur, seg, false);
            }
        } else if ch == '.' && !ib {
            lemma_select_concat(p, r, i + 1, finish(cur, seg), Seq::empty(), ib);
        } else {
            lemma_select_concat(p, r, i + 1, cur, seg.push(ch), ib);
        }
    }
}

proof fn lemma_step_key_append(a: Seq<JsonV>, b: Seq<JsonV>, key: Seq<char>)
    ensures
        step_key_spec(a + b, key) == step_key_spec(a, key) + step_key_spec(b, key),
    decreases b.len(),
{
    if b.len() == 0 {
        assert(a + b =~= a);
        assert(step_key_spec(a, key) + Seq::<JsonV>::empty() =~= step_key_spec(a, key));
    } else {
        lemma_step_key_append(a, b.drop_last(), key);
        assert((a + b).drop_last() =~= a + b.drop_last());
        assert((a + b).last() == b.last());
        let tail = match get(b.last(), key) {
            Some(x) => seq![x],
            None => Seq::<JsonV>::empty(),
        };
        assert(step_key_spec(a, key) + step_key_spec(b.drop_last(), key) + tail =~= step_key_spec(
            a,
            key,
        ) + (step_key_spec(b.drop_last(), key) + tail));
    }
}

proof fn lemma_step_index_append(a: Seq<JsonV>, b: Seq<JsonV>, idx: Seq<char>)
    ensures
        step_index_spec(a + b, idx) == step_index_spec(a, idx) + step_index_spec(b, idx),
    decreases b.len(),
{
    if b.len() == 0 {
        assert(a + b =~= a);
        assert(step_index_spec(a, idx) + Seq::<JsonV>::empty() =~= step_index_spec(a, idx));
    } else {
        lemma_step_index_append(a, b.drop_last(), idx);
        assert((a + b).drop_last() =~= a + b.drop_last());
        assert((a + b).last() == b.last());
        assert(step_index_spec(a, idx) + step_index_spec(b.drop_last(), idx) + index_one(
            b.last(),
            idx,
        ) =~= step_index_spec(a, idx) + (step_index_spec(b.drop_last(), idx) + index_one(
            b.last(),
            idx,
        )));
    }
}

/// Selection acts on each current value separately.
proof fn lemma_select_append(
    q: Seq<char>,
    i: int,
    a: Seq<JsonV>,
    b: Seq<JsonV>,
    seg: Seq<char>,
    ib: bool,
)
    requires
        0 <= i <= q.len(),
    ensures
        select_from(q, i, a + b, seg, ib) == select_from(q, i, a, seg, ib) + select_from(
            q,
            i,
            b,
            seg,
            ib,
        ),
    decreases q.len() - i,
{
    lemma_step_key_append(a, b, seg);
    lemma_step_index_append(a, b, seg);
    if i < q.len() {
        let ch = q[i];
        if ch == '[' || (ch == '.' && !ib) {
            let fa = finish(a, seg);
            let fb = finish(b, seg);
            assert(finish(a + b, seg) == fa + fb);
            if ch == '[' {
                lemma_select_append(q, i + 1, fa, fb, Seq::empty(), true);
            } else {
                lemma_select_append(q, i + 1, fa, fb, Seq::empty(), ib);
            }
        } else if ch == ']' {
            if ib {
                lemma_select_append(
                    q,
                    i + 1,
                    step_index_spec(a, seg),
                    step_index_spec(b, seg),
                    Seq::empty(),
                    false,
                );
            } else {
                lemma_select_append(q, i + 1, a, b, seg, false);
            }
        } else {
            lemma_select_append(q, i + 1, a, b, seg.push(ch), ib);
        }
    }
}

proof fn lemma_select_from_each(q: Seq<char>, vals: Seq<JsonV>)
    ensures
        select_from(q, 0, vals, Seq::empty(), false) == select_each(vals, q),
    decreases vals.len(),
{
    if vals.len() == 0 {
        lemma_select_append(q, 0, vals, vals, Seq::empty(), false);
        assert(vals + vals =~= vals);
        assert(select_from(q, 0, vals, Seq::empty(), false).len() == 0);
        assert(select_from(q, 0, vals, Seq::empty(), false) =~= Seq::<JsonV>::empty());
    } else {
        lemma_select_from_each(q, vals.drop_last());
        assert(vals =~= vals.drop_last() + seq![vals.last()]);
        lemma_select_append(q, 0, vals.drop_last(), seq![vals.last()], Seq::empty(), false);
    }
}

/// A path joined with `.` selects, from each value that its first part
/// selects, what its second part selects (when the first part leaves no
/// bracket open).
pub proof fn lemma_select_dotted_path(v: JsonV, p: Seq<char>, q: Seq<char>)
    requires
        !bracket_open_from(p, 0, false),
    ensures
        select_spec(v, p + seq!['.'] + q) == select_each(select_spec(v, p), q),
{
    let r = seq!['.'] + q;
    assert(p + seq!['.'] + q =~= p + r);
    lemma_select_concat(p, r, 0, seq![v], Seq::empty(), false);
    lemma_select_concat(p, Seq::empty(), 0, seq![v], Seq::empty(), false);
    assert(p + Seq::<char>::empty() =~= p);
    let w = walk(p, 0, seq![v], Seq::empty(), false);
    lemma_walk_bracket(p, 0, seq![v], Seq::empty(), false);
    assert(!w.2);
    assert(r[0] == '.');
    assert(select_from(r, 0, w.0, w.1, w.2) == select_from(r, 1, finish(w.0, w.1), Seq::empty(), false));
    assert(r =~= seq!['.'] + q);
    lemma_select_shift(seq!['.'], q, 0, finish(w.0, w.1), Seq::empty(), false);
    assert(select_spec(v, p) == select_from(Seq::<char>::empty(), 0, w.0, w.1, w.2));
    assert(select_spec(v, p) == finish(w.0, w.1));
    lemma_select_from_each(q, finish(w.0, w.1));
}

/// The decimal text of a number reads back as that number, and a bracket
/// holding it picks the element at that index.
pub proof fn lemma_index_of_decimal(n: nat, a: Seq<JsonV>)
    requires
        n <= usize::MAX,
    ensures
        parse_index(decimal(n)) == Some(n as usize),
        n < a.len() ==> index_one(JsonV::Array(a), decimal(n)) == seq![a[n as int]],
{
    lemma_decimal(n);
    let d = decimal(n);
    assert(is_digit(d[0]));
    assert(d[0] != '+');
    if d == "*"@ {
        reveal_strlit("*");
        assert(d[0] == '*');
    }
}

/// An empty path selects the value itself.
pub proof fn lemma_select_empty_path(v: JsonV)
    ensures
        select_spec(v, Seq::empty()) == seq![v],
{
}

} // verus!
