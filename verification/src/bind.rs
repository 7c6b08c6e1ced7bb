//! Binding command-line values into a request: URL percent-encoding and the
//! `-F key=value` body fields.
use vstd::prelude::*;

use crate::json::{json_reencoded, quote_json, quoted, reencode_json};
use crate::text::push_str;
use vstd::string::StringSliceAdditionalSpecFns;

verus! {

broadcast use vstd::string::group_string_axioms;

/// Bytes written as they are: ASCII letters and digits, `-`, `_`, `.`, `~`
/// and `%` (an existing escape is left alone).
pub open spec fn is_unreserved(b: u8) -> bool {
    ||| 0x61 <= b && b <= 0x7a
    ||| 0x41 <= b && b <= 0x5a
    ||| 0x30 <= b && b <= 0x39
    ||| b == 0x2d
    ||| b == 0x5f
    ||| b == 0x2e
    ||| b == 0x7e
    ||| b == 0x25
}

pub open spec fn hex_upper(d: u8) -> char {
    if d < 10 {
        ((d as u32) + 0x30) as char
    } else {
        ((d as u32) + 0x37) as char
    }
}

/// One byte of the input: itself, or `%` and two upper-case hex digits.
pub open spec fn encode_byte(b: u8) -> Seq<char> {
    if is_unreserved(b) {
        seq![(b as u32) as char]
    } else {
        seq!['%', hex_upper(b / 16), hex_upper(b % 16)]
    }
}

pub open spec fn encode_bytes(bs: Seq<u8>) -> Seq<char>
    decreases bs.len(),
{
    if bs.len() == 0 {
        Seq::empty()
    } else {
        encode_bytes(bs.drop_last()) + encode_byte(bs.last())
    }
}

fn hex_digit(d: u8) -> (c: char)
    requires
        d < 16,
    ensures
        c == hex_upper(d),
{
    if d < 10 {
        (d + 0x30) as char
    } else {
        (d + 0x37) as char
    }
}

/// Percent-encodes the UTF-8 bytes of `s`.
pub fn percent_encode(s: &str) -> (r: String)
    ensures
        r@ == encode_bytes(s.spec_bytes()),
{
    let bytes = s.as_bytes();
    let mut out = String::new();
    let mut i: usize = 0;
    while i < bytes.len()
        invariant
            i <= bytes@.len(),
            bytes@ == s.spec_bytes(),
            out@ == encode_bytes(bytes@.take(i as int)),
        decreases bytes.len() - i,
    {
        let b = bytes[i];
        assert(bytes@.take(i + 1).drop_last() =~= bytes@.take(i as int));
        assert(bytes@.take(i + 1).last() == b);
        if (b >= 0x61 && b <= 0x7a) || (b >= 0x41 && b <= 0x5a) || (b >= 0x30 && b <= 0x39) || b
            == 0x2d || b == 0x5f || b == 0x2e || b == 0x7e || b == 0x25 {
            out.push(b as char);
        } else {
            out.push('%');
            out.push(hex_digit(b / 16));
            out.push(hex_digit(b % 16));
        }
        assert(out@ =~= encode_bytes(bytes@.take(i + 1)));
        i += 1;
    }
    assert(bytes@.take(bytes@.len() as int) =~= bytes@);
    out
}

/// The characters that percent-encoding leaves in its output.
pub open spec fn is_url_safe(c: char) -> bool {
    is_unreserved(c as u8) && (c as u32) < 0x80
}

/// Every character of a percent-encoded text is an unreserved ASCII
/// character (letters, digits, `-`, `_`, `.`, `~`, `%`), whatever the input.
pub proof fn lemma_percent_encoding_is_url_safe(bs: Seq<u8>)
    ensures
        forall|i: int| 0 <= i < encode_bytes(bs).len() ==> is_url_safe(#[trigger] encode_bytes(bs)[i]),
    decreases bs.len(),
{
    if bs.len() > 0 {
        lemma_percent_encoding_is_url_safe(bs.drop_last());
        let a = encode_bytes(bs.drop_last());
        let b = encode_byte(bs.last());
        assert forall|i: int| 0 <= i < b.len() implies is_url_safe(#[trigger] b[i]) by {
            let x = bs.last();
            if !is_unreserved(x) && i > 0 {
                let d: u8 = if i == 1 { x / 16 } else { x % 16 };
                assert(b[i] == hex_upper(d));
            }
        }
        assert forall|i: int| 0 <= i < encode_bytes(bs).len() implies is_url_safe(
            #[trigger] encode_bytes(bs)[i],
        ) by {
            if i < a.len() {
                assert(encode_bytes(bs)[i] == a[i]);
            } else {
                assert(encode_bytes(bs)[i] == b[i - a.len()]);
            }
        }
    }
}

/// A text made only of unreserved ASCII characters is left as it is.
pub proof fn lemma_percent_encoding_keeps_unreserved(bs: Seq<u8>)
    requires
        forall|i: int| 0 <= i < bs.len() ==> is_unreserved(#[trigger] bs[i]),
    ensures
        encode_bytes(bs) == bs.map_values(|b: u8| (b as u32) as char),
    decreases bs.len(),
{
    if bs.len() > 0 {
        assert(is_unreserved(bs[bs.len() - 1]));
        lemma_percent_encoding_keeps_unreserved(bs.drop_last());
        assert(encode_bytes(bs) =~= bs.map_values(|b: u8| (b as u32) as char));
    }
}

/// A `-F` value as it goes into the JSON body, given what `serde_json` made
/// of it (`reencoded`): that compact form when the value is JSON, else a JSON
/// string holding the value.
pub open spec fn typed_from(val: Seq<char>, reencoded: Option<Seq<char>>) -> Seq<char> {
    match reencoded {
        Some(t) => t,
        None => quoted(val),
    }
}

/// A `-F` value as it goes into the JSON body.
pub open spec fn typed_value(val: Seq<char>) -> Seq<char> {
    typed_from(val, json_reencoded(val))
}

pub fn typed_value_from(val: &str, reencoded: Option<String>) -> (r: String)
    ensures
        r@ == typed_from(
            val@,
            match reencoded {
                Some(t) => Some(t@),
                None => None,
            },
        ),
{
    match reencoded {
        Some(t) => t,
        None => quote_json(val),
    }
}

pub fn append_typed_value(sb: &mut String, val: &str)
    ensures
        final(sb)@ == old(sb)@ + typed_value(val@),
{
    let t = typed_value_from(val, reencode_json(val));
    push_str(sb, t.as_str());
}

/// One `"key":value` member of the body.
pub open spec fn body_field(key: Seq<char>, val: Seq<char>) -> Seq<char> {
    quoted(key) + ":"@ + typed_value(val)
}

pub fn build_body_field(key: &str, val: &str) -> (r: String)
    ensures
        r@ == body_field(key@, val@),
{
    let mut s = quote_json(key);
    push_str(&mut s, ":");
    append_typed_value(&mut s, val);
    assert(s@ =~= body_field(key@, val@));
    s
}

} // verus!
