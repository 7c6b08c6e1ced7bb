//! Registry entries: the stored document `{"source", "fetched_at", "spec"}`
//! and the `oapi ls` listing.
use vstd::prelude::*;

use crate::json::{as_u64, get, get_str, Json, JsonV};
use crate::openapi::{operations, operations_spec};
use crate::util::{api_path, api_path_of};
use crate::text::{decimal, decimal_string, lemma_decimal, owned, pad_left, pad_right, push_decimal, push_padded_left, push_padded_right, push_str};

verus! {

broadcast use vstd::string::group_string_axioms;

/// One registered API.
pub struct Registry {
    pub name: String,
    pub source: String,
    pub fetched_at: u64,
    pub spec: Json,
    pub path: String,
}

pub struct RegistryV {
    pub name: Seq<char>,
    pub source: Seq<char>,
    pub fetched_at: u64,
    pub spec: JsonV,
    pub path: Seq<char>,
}

impl View for Registry {
    type V = RegistryV;

    open spec fn view(&self) -> RegistryV {
        RegistryV {
            name: self.name@,
            source: self.source@,
            fetched_at: self.fetched_at,
            spec: self.spec@,
            path: self.path@,
        }
    }
}

/// The entry a stored document describes: it needs a string `source`, a
/// `fetched_at` (0 unless it is a `u64`) and a `spec`.
pub open spec fn entry_of_document(name: Seq<char>, path: Seq<char>, doc: JsonV) -> Option<
    RegistryV,
> {
    match get_str(doc, "source"@) {
        None => None,
        Some(source) => match get(doc, "fetched_at"@) {
            None => None,
            Some(f) => match get(doc, "spec"@) {
                None => None,
                Some(spec) => Some(
                    RegistryV {
                        name,
                        source,
                        fetched_at: match as_u64(f) {
                            Some(t) => t,
                            None => 0,
                        },
                        spec,
                        path,
                    },
                ),
            },
        },
    }
}

/// Reads an entry from its stored document (the file `path` of `name`).
pub fn load(name: &str, path: String, doc: &Json) -> (r: Option<Registry>)
    ensures
        match r {
            Some(e) => entry_of_document(name@, path@, doc@) == Some(e@),
            None => entry_of_document(name@, path@, doc@) is None,
        },
{
    let source = match doc.get_str("source") {
        Some(s) => s.clone(),
        None => return None,
    };
    let fetched_at = match doc.get("fetched_at") {
        Some(f) => match f.as_u64() {
            Some(t) => t,
            None => 0,
        },
        None => return None,
    };
    let spec = match doc.get("spec") {
        Some(s) => s.deep_copy(),
        None => return None,
    };
    Some(Registry { name: owned(name), source, fetched_at, spec, path })
}

/// The document stored for an entry.
pub open spec fn document(source: Seq<char>, fetched_at: u64, spec: JsonV) -> JsonV {
    JsonV::Object(
        seq![
            ("fetched_at"@, JsonV::Number(decimal(fetched_at as nat))),
            ("source"@, JsonV::Str(source)),
            ("spec"@, spec),
        ],
    )
}

/// The document saved for an entry fetched from `source` at `fetched_at`
/// (seconds since the Unix epoch).
pub fn save(source: &str, fetched_at: u64, spec: &Json) -> (r: Json)
    ensures
        r@ == document(source@, fetched_at, spec@),
{
    let mut members: Vec<(String, Json)> = Vec::new();
    members.push((owned("fetched_at"), Json::Number(decimal_string(fetched_at))));
    members.push((owned("source"), Json::Str(owned(source))));
    members.push((owned("spec"), spec.deep_copy()));
    let r = Json::Object(members);
    let ghost d = document(source@, fetched_at, spec@)->Object_0;
    assert forall|k: int| 0 <= k < 3 implies #[trigger] r@->Object_0[k] == d[k] by {
        assert(r@->Object_0[k] == (members@[k].0@, members@[k].1@));
    }
    assert(r@->Object_0 =~= d);
    r
}

/// The file `oapi rm NAME` deletes; a name that is not a registry name is
/// refused with `bad name`.
pub fn remove(home: &str, name: &str) -> (r: Result<String, String>)
    ensures
        match r {
            Ok(p) => api_path_of(home@, name) == Some(p@),
            Err(e) => api_path_of(home@, name) is None && e@ == "bad name"@,
        },
{
    match api_path(home, name) {
        Some(p) => Ok(p),
        None => Err(owned("bad name")),
    }
}

/// Reading back what was stored gives the entry that was saved.
pub proof fn lemma_document_round_trip(
    name: Seq<char>,
    path: Seq<char>,
    source: Seq<char>,
    fetched_at: u64,
    spec: JsonV,
)
    ensures
        entry_of_document(name, path, document(source, fetched_at, spec)) == Some(
            RegistryV { name, source, fetched_at, spec, path },
        ),
{
    reveal_strlit("fetched_at");
    reveal_strlit("source");
    reveal_strlit("spec");
    let m = document(source, fetched_at, spec)->Object_0;
    assert("fetched_at"@.len() == 10);
    assert("source"@.len() == 6);
    assert("spec"@.len() == 4);
    assert(m[0].0 == "fetched_at"@);
    assert(m[1].0 == "source"@);
    assert(m[2].0 == "spec"@);
    assert(m[0].0 != "source"@);
    assert(m[0].0 != "spec"@);
    assert(m[1].0 != "spec"@);
    assert(crate::json::member_index_from(m, "source"@, 1) == 1);
    assert(crate::json::member_index_from(m, "source"@, 0) == 1);
    assert(crate::json::member_index_from(m, "fetched_at"@, 0) == 0);
    assert(crate::json::member_index_from(m, "spec"@, 2) == 2);
    assert(crate::json::member_index_from(m, "spec"@, 1) == 2);
    assert(crate::json::member_index_from(m, "spec"@, 0) == 2);
    lemma_decimal(fetched_at as nat);
}

// ---------------------------------------------------------------------------
// Listing
// ---------------------------------------------------------------------------

/// Character order, which is the byte order of UTF-8 text (`String`'s `Ord`).
pub open spec fn text_lt(a: Seq<char>, b: Seq<char>) -> bool
    decreases a.len(),
{
    if a.len() == 0 {
        b.len() > 0
    } else if b.len() == 0 {
        false
    } else if a[0] != b[0] {
        (a[0] as u32) < (b[0] as u32)
    } else {
        text_lt(a.drop_first(), b.drop_first())
    }
}

fn less_than(a: &Vec<char>, b: &Vec<char>) -> (r: bool)
    ensures
        r == text_lt(a@, b@),
{
    let mut i: usize = 0;
    assert(a@.skip(0) =~= a@);
    assert(b@.skip(0) =~= b@);
    assert(a@.take(0) =~= b@.take(0));
    while i < a.len() && i < b.len() && a[i] == b[i]
        invariant
            i <= a@.len(),
            i <= b@.len(),
            a@.take(i as int) == b@.take(i as int),
            text_lt(a@, b@) == text_lt(a@.skip(i as int), b@.skip(i as int)),
        decreases a.len() - i,
    {
        assert(a@.skip(i as int).drop_first() =~= a@.skip(i + 1));
        assert(b@.skip(i as int).drop_first() =~= b@.skip(i + 1));
        assert(a@.take(i + 1) =~= a@.take(i as int).push(a@[i as int]));
        assert(b@.take(i + 1) =~= b@.take(i as int).push(b@[i as int]));
        i += 1;
    }
    if i == a.len() {
        i < b.len()
    } else if i == b.len() {
        false
    } else {
        (a[i] as u32) < (b[i] as u32)
    }
}

/// One line of the listing: name, number of operations, source.
pub struct LsRow {
    pub name: String,
    pub operations: u64,
    pub source: String,
}

pub struct LsRowV {
    pub name: Seq<char>,
    pub operations: u64,
    pub source: Seq<char>,
}

impl View for LsRow {
    type V = LsRowV;

    open spec fn view(&self) -> LsRowV {
        LsRowV { name: self.name@, operations: self.operations, source: self.source@ }
    }
}

pub open spec fn row_views(rows: Seq<LsRow>) -> Seq<LsRowV> {
    Seq::new(rows.len(), |i: int| rows[i]@)
}

/// The row for one file of the registry directory (its stem, and the entry
/// read from it if it could be read).
pub open spec fn row_of(name: Seq<char>, entry: Option<RegistryV>) -> LsRowV {
    match entry {
        Some(e) => LsRowV {
            name,
            operations: operations_spec(e.spec).len() as u64,
            source: e.source,
        },
        None => LsRowV { name, operations: 0, source: "(broken entry)"@ },
    }
}

/// Where a stable sort puts `x` among the sorted `s`: before the first row
/// whose name is greater.
pub open spec fn insert_pos(s: Seq<LsRowV>, x: LsRowV, i: int) -> int
    decreases s.len() - i,
{
    if i < 0 || i >= s.len() {
        s.len() as int
    } else if text_lt(x.name, s[i].name) {
        i
    } else {
        insert_pos(s, x, i + 1)
    }
}

pub open spec fn insert_row(s: Seq<LsRowV>, x: LsRowV) -> Seq<LsRowV> {
    s.insert(insert_pos(s, x, 0), x)
}

/// `sort_by` on the names (a stable sort).
pub open spec fn sorted_rows(rows: Seq<LsRowV>) -> Seq<LsRowV>
    decreases rows.len(),
{
    if rows.len() == 0 {
        Seq::empty()
    } else {
        insert_row(sorted_rows(rows.drop_last()), rows.last())
    }
}

proof fn lemma_insert_pos(s: Seq<LsRowV>, x: LsRowV, i: int)
    requires
        0 <= i <= s.len(),
    ensures
        i <= insert_pos(s, x, i) <= s.len(),
    decreases s.len() - i,
{
    if i < s.len() && !text_lt(x.name, s[i].name) {
        lemma_insert_pos(s, x, i + 1);
    }
}

proof fn lemma_text_lt_asym(a: Seq<char>, b: Seq<char>)
    ensures
        !(text_lt(a, b) && text_lt(b, a)),
    decreases a.len(),
{
    if a.len() > 0 && b.len() > 0 && a[0] == b[0] {
        lemma_text_lt_asym(a.drop_first(), b.drop_first());
    }
}

proof fn lemma_text_lt_trans(a: Seq<char>, b: Seq<char>, c: Seq<char>)
    requires
        text_lt(a, b),
        text_lt(b, c),
    ensures
        text_lt(a, c),
    decreases a.len(),
{
    if a.len() > 0 && b.len() > 0 && c.len() > 0 && a[0] == b[0] && b[0] == c[0] {
        lemma_text_lt_trans(a.drop_first(), b.drop_first(), c.drop_first());
    }
}

/// Rows in order of their names.
pub open spec fn names_sorted(rows: Seq<LsRowV>) -> bool {
    forall|i: int, j: int|
        0 <= i < j < rows.len() ==> !text_lt(#[trigger] rows[j].name, #[trigger] rows[i].name)
}

proof fn lemma_insert_pos_bounds(s: Seq<LsRowV>, x: LsRowV, i: int)
    requires
        0 <= i <= s.len(),
    ensures
        forall|k: int| i <= k < insert_pos(s, x, i) ==> !text_lt(x.name, #[trigger] s[k].name),
        insert_pos(s, x, i) < s.len() ==> text_lt(x.name, s[insert_pos(s, x, i)].name),
    decreases s.len() - i,
{
    if i < s.len() && !text_lt(x.name, s[i].name) {
        lemma_insert_pos_bounds(s, x, i + 1);
    }
}

proof fn lemma_insert_row_sorted(s: Seq<LsRowV>, x: LsRowV)
    requires
        names_sorted(s),
    ensures
        names_sorted(insert_row(s, x)),
{
    let p = insert_pos(s, x, 0);
    lemma_insert_pos(s, x, 0);
    lemma_insert_pos_bounds(s, x, 0);
    let t = insert_row(s, x);
    assert forall|i: int, j: int| 0 <= i < j < t.len() implies !text_lt(
        #[trigger] t[j].name,
        #[trigger] t[i].name,
    ) by {
        if j < p {
            assert(t[i] == s[i] && t[j] == s[j]);
        } else if j == p {
            assert(t[i] == s[i] && t[j] == x);
        } else if i > p {
            assert(t[i] == s[i - 1] && t[j] == s[j - 1]);
        } else if i == p {
            assert(t[i] == x && t[j] == s[j - 1]);
            lemma_text_lt_asym(x.name, s[p].name);
            if j - 1 > p {
                assert(!text_lt(s[j - 1].name, s[p].name));
                if text_lt(s[j - 1].name, x.name) {
                    lemma_text_lt_trans(s[j - 1].name, x.name, s[p].name);
                }
            }
        } else {
            assert(t[i] == s[i] && t[j] == s[j - 1]);
        }
    }
}

/// The listing is in order of names and holds exactly the rows it was given
/// (`oapi ls` lists every entry, sorted by name).
pub proof fn lemma_listing_sorted(rows: Seq<LsRowV>)
    ensures
        names_sorted(sorted_rows(rows)),
        sorted_rows(rows).to_multiset() == rows.to_multiset(),
    decreases rows.len(),
{
    if rows.len() == 0 {
        assert(rows =~= Seq::<LsRowV>::empty());
    } else {
        let init = rows.drop_last();
        lemma_listing_sorted(init);
        lemma_insert_row_sorted(sorted_rows(init), rows.last());
        lemma_insert_pos(sorted_rows(init), rows.last(), 0);
        vstd::seq_lib::to_multiset_insert(
            sorted_rows(init),
            insert_pos(sorted_rows(init), rows.last(), 0),
            rows.last(),
        );
        assert(rows =~= init.push(rows.last()));
        vstd::seq_lib::to_multiset_build(init, rows.last());
    }
}

fn insert_sorted(rows: &mut Vec<LsRow>, x: LsRow)
    ensures
        row_views(final(rows)@) == insert_row(row_views(old(rows)@), x@),
{
    let ghost s = row_views(rows@);
    let xv = crate::text::chars_of(x.name.as_str());
    let mut i: usize = 0;
    let mut done = false;
    while i < rows.len() && !done
        invariant
            i <= rows@.len(),
            s == row_views(rows@),
            rows@ == old(rows)@,
            xv@ == x.name@,
            insert_pos(s, x@, 0) == insert_pos(s, x@, i as int),
            done ==> i < rows@.len() && text_lt(x@.name, s[i as int].name),
        decreases rows.len() - i + (if done {
            0int
        } else {
            1int
        }),
    {
        let yv = crate::text::chars_of(rows[i].name.as_str());
        if less_than(&xv, &yv) {
            done = true;
        } else {
            i += 1;
        }
    }
    proof {
        lemma_insert_pos(s, x@, 0);
    }
    let ghost xw = x@;
    rows.insert(i, x);
    assert(row_views(rows@) =~= s.insert(i as int, xw));
}

/// The listing rows, sorted by name.
pub fn list(entries: Vec<(String, Option<Registry>)>) -> (r: Vec<LsRow>)
    ensures
        row_views(r@) == sorted_rows(
            Seq::new(
                entries@.len(),
                |i: int|
                    row_of(
                        entries@[i].0@,
                        match entries@[i].1 {
                            Some(e) => Some(e@),
                            None => None,
                        },
                    ),
            ),
        ),
{
    let ghost all = Seq::new(
        entries@.len(),
        |i: int|
            row_of(
                entries@[i].0@,
                match entries@[i].1 {
                    Some(e) => Some(e@),
                    None => None,
                },
            ),
    );
    let mut rows: Vec<LsRow> = Vec::new();
    let mut i: usize = 0;
    while i < entries.len()
        invariant
            i <= entries@.len(),
            all.len() == entries@.len(),
            forall|k: int|
                0 <= k < entries@.len() ==> #[trigger] all[k] == row_of(
                    entries@[k].0@,
                    match entries@[k].1 {
                        Some(e) => Some(e@),
                        None => None,
                    },
                ),
            row_views(rows@) == sorted_rows(all.take(i as int)),
        decreases entries.len() - i,
    {
        assert(all.take(i + 1).drop_last() =~= all.take(i as int));
        assert(all.take(i + 1).last() == all[i as int]);
        let row = match &entries[i].1 {
            Some(e) => {
                let ops = operations(&e.spec);
                LsRow {
                    name: entries[i].0.clone(),
                    operations: ops.len() as u64,
                    source: e.source.clone(),
                }
            },
            None => LsRow {
                name: entries[i].0.clone(),
                operations: 0,
                source: owned("(broken entry)"),
            },
        };
        assert(row@ == all[i as int]);
        insert_sorted(&mut rows, row);
        i += 1;
    }
    assert(all.take(i as int) =~= all);
    rows
}

/// The output of `oapi ls`.
pub open spec fn ls_line(r: LsRowV) -> Seq<char> {
    pad_right(r.name, 16) + " "@ + pad_left(decimal(r.operations as nat), 3) + " operations  "@
        + r.source + "\n"@
}

pub open spec fn ls_lines(rows: Seq<LsRowV>) -> Seq<char>
    decreases rows.len(),
{
    if rows.len() == 0 {
        Seq::empty()
    } else {
        ls_lines(rows.drop_last()) + ls_line(rows.last())
    }
}

pub open spec fn ls_output(rows: Seq<LsRowV>) -> Seq<char> {
    if rows.len() == 0 {
        "no APIs registered (oapi connect NAME SPEC)\n"@
    } else {
        ls_lines(rows)
    }
}

pub fn ls_text(rows: &Vec<LsRow>) -> (r: String)
    ensures
        r@ == ls_output(row_views(rows@)),
{
    if rows.len() == 0 {
        return owned("no APIs registered (oapi connect NAME SPEC)\n");
    }
    let mut out = String::new();
    let mut i: usize = 0;
    while i < rows.len()
        invariant
            i <= rows@.len(),
            out@ == ls_lines(row_views(rows@).take(i as int)),
        decreases rows.len() - i,
    {
        assert(row_views(rows@).take(i + 1).drop_last() =~= row_views(rows@).take(i as int));
        let ghost before = out@;
        push_padded_right(&mut out, rows[i].name.as_str(), 16);
        push_str(&mut out, " ");
        let n = decimal_string(rows[i].operations);
        push_padded_left(&mut out, n.as_str(), 3);
        push_str(&mut out, " operations  ");
        push_str(&mut out, rows[i].source.as_str());
        push_str(&mut out, "\n");
        assert(out@ =~= before + ls_line(rows@[i as int]@));
        i += 1;
    }
    assert(row_views(rows@).take(i as int) =~= row_views(rows@));
    out
}

} // verus!
