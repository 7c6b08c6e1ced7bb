//! Registry names and where their files live.
use vstd::prelude::*;

use crate::text::{chars_of, is_alnum, push_str};
use vstd::string::StringSliceAdditionalSpecFns;

verus! {

broadcast use vstd::string::group_string_axioms;

pub open spec fn name_char(c: char) -> bool {
    is_alnum(c) || c == '_' || c == '-'
}

/// A registry name: 1 to 64 ASCII letters, digits, `_` and `-` (so never
/// `.` or `..`).
pub open spec fn is_valid_name(name: &str) -> bool {
    &&& 0 < name@.len() <= 64
    &&& forall|i: int| 0 <= i < name@.len() ==> name_char(#[trigger] name@[i])
}

pub fn valid_name(name: &str) -> (r: bool)
    ensures
        r == is_valid_name(name),
{
    if name.is_empty() {
        return false;
    }
    let v = chars_of(name);
    let mut i: usize = 0;
    while i < v.len()
        invariant
            i <= v@.len(),
            v@ == name@,
            forall|k: int| 0 <= k < i ==> name_char(#[trigger] v@[k]),
        decreases v.len() - i,
    {
        let c = v[i];
        if !((c >= '0' && c <= '9') || (c >= 'A' && c <= 'Z') || (c >= 'a' && c <= 'z') || c
            == '_' || c == '-') {
            return false;
        }
        i += 1;
    }
    proof {
        assert forall|k: int| 0 <= k < name@.len() implies (#[trigger] name@[k] as u32) < 128 by {
            assert(name_char(v@[k]));
        }
        assert(vstd::string::is_ascii(name));
        vstd::string::is_ascii_spec_bytes(name);
    }
    // With ASCII text the byte length (the limit is on bytes) is the
    // character count.
    name.len() <= 64
}

/// `PathBuf::join` with a relative part: a `/` goes between the two unless
/// the base is empty or already ends with one.
pub open spec fn join_path(base: Seq<char>, part: Seq<char>) -> Seq<char> {
    if base.len() > 0 && base.last() != '/' {
        base + "/"@ + part
    } else {
        base + part
    }
}

fn join_into(base: &str, part: &str) -> (r: String)
    ensures
        r@ == join_path(base@, part@),
{
    let v = chars_of(base);
    let mut r = String::new();
    push_str(&mut r, base);
    if v.len() > 0 && v[v.len() - 1] != '/' {
        push_str(&mut r, "/");
    }
    push_str(&mut r, part);
    assert(r@ =~= join_path(base@, part@));
    r
}

/// A text that may be absent, by its characters.
pub open spec fn opt_text(o: Option<&str>) -> Option<Seq<char>> {
    match o {
        Some(t) => Some(t@),
        None => None,
    }
}

/// The home of the registry, given the values of `OAPI_HOME`, `BA_HOME` and
/// `HOME` (`None` for a variable that is not set): `OAPI_HOME` itself, else
/// `oapi` under `BA_HOME`, else `.local/share/oapi` under `HOME`, else
/// `/tmp/oapi`.
pub open spec fn oapi_home_of(
    oapi: Option<Seq<char>>,
    ba: Option<Seq<char>>,
    home: Option<Seq<char>>,
) -> Seq<char> {
    match oapi {
        Some(h) => h,
        None => match ba {
            Some(b) => join_path(b, "oapi"@),
            None => match home {
                Some(h) => join_path(h, ".local/share/oapi"@),
                None => "/tmp/oapi"@,
            },
        },
    }
}

pub fn oapi_home(oapi: Option<&str>, ba: Option<&str>, home: Option<&str>) -> (r: String)
    ensures
        r@ == oapi_home_of(opt_text(oapi), opt_text(ba), opt_text(home)),
{
    match oapi {
        Some(h) => crate::text::owned(h),
        None => match ba {
            Some(b) => join_into(b, "oapi"),
            None => match home {
                Some(h) => join_into(h, ".local/share/oapi"),
                None => crate::text::owned("/tmp/oapi"),
            },
        },
    }
}

/// The directory of the registry under the home directory `home`.
pub open spec fn apis_dir_of(home: Seq<char>) -> Seq<char> {
    join_path(home, "apis"@)
}

pub fn apis_dir(home: &str) -> (r: String)
    ensures
        r@ == apis_dir_of(home@),
{
    join_into(home, "apis")
}

/// The file of the entry `name`, for valid names only.
pub open spec fn api_path_of(home: Seq<char>, name: &str) -> Option<Seq<char>> {
    if is_valid_name(name) {
        Some(join_path(apis_dir_of(home), name@ + ".json"@))
    } else {
        None
    }
}

pub fn api_path(home: &str, name: &str) -> (r: Option<String>)
    ensures
        match r {
            Some(p) => api_path_of(home@, name) == Some(p@),
            None => api_path_of(home@, name) is None,
        },
{
    if !valid_name(name) {
        return None;
    }
    let dir = apis_dir(home);
    let mut file = String::new();
    push_str(&mut file, name);
    push_str(&mut file, ".json");
    Some(join_into(dir.as_str(), file.as_str()))
}

} // verus!
