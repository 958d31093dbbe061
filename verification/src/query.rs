//! The query of a request target: percent-decoded fields, and names that are safe to pass on.

use crate::codec::{hex_digit, utf8_text};
use crate::table::{find_in, lookup, upsert_by, upserted, Keyed};
use crate::text::{
    chars_of, concat3, is_alnum, is_alphanumeric, parse_u64, parse_u64_view, split, split_once, split_once_view, split_view,
    views,
};
use vstd::prelude::*;

verus! {

/// The value of a hexadecimal digit.
pub open spec fn hex_value(b: u8) -> Option<u8> {
    if 48 <= b && b <= 57 {
        Some((b - 48) as u8)
    } else if 97 <= b && b <= 102 {
        Some((b - 87) as u8)
    } else if 65 <= b && b <= 70 {
        Some((b - 55) as u8)
    } else {
        None
    }
}

fn hex_digit_value(b: u8) -> (r: Option<u8>)
    ensures
        r == hex_value(b),
{
    if 48 <= b && b <= 57 {
        Some(b - 48)
    } else if 97 <= b && b <= 102 {
        Some(b - 87)
    } else if 65 <= b && b <= 70 {
        Some(b - 55)
    } else {
        None
    }
}

/// The byte that two characters behind a percent sign write: two digits, or a plus sign and one.
pub open spec fn escaped(a: u8, b: u8) -> Option<u8> {
    match hex_value(b) {
        None => None,
        Some(low) => if a == 43 {
            Some(low)
        } else {
            match hex_value(a) {
                Some(high) => Some((high * 16 + low) as u8),
                None => None,
            }
        },
    }
}

/// The bytes that a percent-encoded text writes, from a position.
pub open spec fn decode_from(b: Seq<u8>, from: int) -> Option<Seq<u8>>
    decreases b.len() - from,
{
    if from < 0 || from >= b.len() {
        Some(Seq::empty())
    } else if b[from] == 37 {
        if from + 2 >= b.len() {
            None
        } else {
            match (escaped(b[from + 1], b[from + 2]), decode_from(b, from + 3)) {
                (Some(x), Some(rest)) => Some(seq![x] + rest),
                _ => None,
            }
        }
    } else {
        match decode_from(b, from + 1) {
            Some(rest) => Some(
                seq![if b[from] == 43 {
                    32u8
                } else {
                    b[from]
                }] + rest,
            ),
            None => None,
        }
    }
}

/// The text that a percent-encoded text writes, where it writes one.
pub open spec fn decoded_text(s: Seq<char>) -> Option<Seq<char>> {
    match decode_from(vstd::utf8::encode_utf8(s), 0) {
        Some(b) => if vstd::utf8::valid_utf8(b) {
            Some(vstd::utf8::decode_utf8(b))
        } else {
            None
        },
        None => None,
    }
}

/// The text that a percent-encoded text writes: an escape is a byte, a plus sign a space. There is
/// none where an escape is broken off or wrong, or the bytes are not UTF-8.
pub fn percent_decode(value: &str) -> (r: Option<String>)
    ensures
        crate::task::opt_text(r) == decoded_text(value@),
{
    let bytes = value.as_bytes();
    let ghost all = bytes@;
    let mut out: Vec<u8> = Vec::new();
    let mut i: usize = 0;
    proof {
        if decode_from(all, 0) is Some {
            assert(out@ + decode_from(all, 0)->0 =~= decode_from(all, 0)->0);
        }
    }
    while i < bytes.len()
        invariant
            i <= bytes.len(),
            all == bytes@,
            all == vstd::utf8::encode_utf8(value@),
            decode_from(all, 0) is Some == (decode_from(all, i as int) is Some),
            decode_from(all, 0) is Some ==> decode_from(all, 0)->0 == out@ + decode_from(all, i as int)->0,
        decreases bytes.len() - i,
    {
        let b = bytes[i];
        let ghost before = out@;
        if b == 37 {
            if bytes.len() - i <= 2 {
                return None;
            }
            let low = match hex_digit_value(bytes[i + 2]) {
                Some(x) => x,
                None => return None,
            };
            let a = bytes[i + 1];
            let x: u8 = if a == 43 {
                low
            } else {
                match hex_digit_value(a) {
                    Some(high) => high * 16 + low,
                    None => return None,
                }
            };
            out.push(x);
            proof {
                assert(escaped(all[i + 1], all[i + 2]) == Some(x));
                if decode_from(all, i + 3) is Some {
                    let rest = decode_from(all, i + 3)->0;
                    assert(before + (seq![x] + rest) =~= out@ + rest);
                }
            }
            i += 3;
        } else {
            let x: u8 = if b == 43 {
                32
            } else {
                b
            };
            out.push(x);
            proof {
                if decode_from(all, i + 1) is Some {
                    let rest = decode_from(all, i + 1)->0;
                    assert(before + (seq![x] + rest) =~= out@ + rest);
                }
            }
            i += 1;
        }
    }
    proof {
        assert(out@ + Seq::<u8>::empty() =~= out@);
    }
    utf8_text(out)
}

/// Whether bytes from a position on are an encoding of others from a position on: some of them are
/// escaped, among them every percent and plus sign, a space may be a plus sign, and the others
/// stand as they are.
pub open spec fn encodes_from(code: Seq<u8>, from: int, bytes: Seq<u8>, at: int) -> bool
    decreases code.len() - from,
{
    if from < 0 || from >= code.len() {
        at == bytes.len()
    } else if at < 0 || at >= bytes.len() {
        false
    } else if code[from] == 37 {
        from + 2 < code.len() && (match (hex_value(code[from + 1]), hex_value(code[from + 2])) {
            (Some(high), Some(low)) => high * 16 + low == bytes[at],
            _ => false,
        }) && encodes_from(code, from + 3, bytes, at + 1)
    } else {
        bytes[at] == (if code[from] == 43 {
            32u8
        } else {
            code[from]
        }) && encodes_from(code, from + 1, bytes, at + 1)
    }
}

/// Whether a text is a percent encoding of another.
pub open spec fn encodes(code: Seq<char>, text: Seq<char>) -> bool {
    encodes_from(vstd::utf8::encode_utf8(code), 0, vstd::utf8::encode_utf8(text), 0)
}

proof fn lemma_decode_encoded(code: Seq<u8>, from: int, bytes: Seq<u8>, at: int)
    requires
        0 <= from,
        0 <= at <= bytes.len(),
        encodes_from(code, from, bytes, at),
    ensures
        decode_from(code, from) == Some(bytes.skip(at)),
    decreases code.len() - from,
{
    if from >= code.len() {
        assert(bytes.skip(at) =~= Seq::empty());
    } else {
        assert(bytes.skip(at) =~= seq![bytes[at]] + bytes.skip(at + 1));
        if code[from] == 37 {
            lemma_decode_encoded(code, from + 3, bytes, at + 1);
        } else {
            lemma_decode_encoded(code, from + 1, bytes, at + 1);
        }
    }
}

/// Decoding any encoding of a text gives the text back.
pub proof fn encoded_text_is_read_back(code: Seq<char>, text: Seq<char>)
    requires
        encodes(code, text),
    ensures
        decoded_text(code) == Some(text),
{
    let bytes = vstd::utf8::encode_utf8(text);
    lemma_decode_encoded(vstd::utf8::encode_utf8(code), 0, bytes, 0);
    assert(bytes.skip(0) =~= bytes);
    vstd::utf8::encode_utf8_valid_utf8(text);
    vstd::utf8::encode_utf8_decode_utf8(text);
}

/// The encoding of a text in which every byte is escaped.
pub open spec fn escaped_text(text: Seq<char>) -> Seq<char> {
    let bytes = vstd::utf8::encode_utf8(text);
    Seq::new(
        3 * bytes.len(),
        |i: int|
            if i % 3 == 0 {
                '%'
            } else if i % 3 == 1 {
                hex_digit(bytes[i / 3] as int / 16)
            } else {
                hex_digit(bytes[i / 3] as int % 16)
            },
    )
}

spec fn escapes(code: Seq<u8>, bytes: Seq<u8>, i: int) -> bool {
    code[3 * i] == 37 && code[3 * i + 1] == hex_digit(bytes[i] as int / 16) as u8 && code[3 * i + 2] == hex_digit(
        bytes[i] as int % 16,
    ) as u8
}

proof fn lemma_escaped(code: Seq<u8>, bytes: Seq<u8>, k: int)
    requires
        code.len() == 3 * bytes.len(),
        0 <= k <= bytes.len(),
        forall|i: int| 0 <= i < bytes.len() ==> #[trigger] escapes(code, bytes, i),
    ensures
        encodes_from(code, 3 * k, bytes, k),
    decreases bytes.len() - k,
{
    if k < bytes.len() {
        lemma_escaped(code, bytes, k + 1);
        assert(escapes(code, bytes, k));
        let b = bytes[k];
        assert(hex_value(hex_digit(b as int / 16) as u8) == Some((b as int / 16) as u8));
        assert(hex_value(hex_digit(b as int % 16) as u8) == Some((b as int % 16) as u8));
    }
}

/// Every text has an encoding, which gives the text back.
pub proof fn every_text_can_be_encoded(text: Seq<char>)
    ensures
        encodes(escaped_text(text), text),
        decoded_text(escaped_text(text)) == Some(text),
{
    let bytes = vstd::utf8::encode_utf8(text);
    let chars = escaped_text(text);
    let code = vstd::utf8::encode_utf8(chars);
    assert(vstd::utf8::is_ascii_chars(chars)) by {
        assert forall|i: int| 0 <= i < chars.len() implies '\0' <= #[trigger] chars[i] <= '\u{7f}' by {
            assert(0 <= bytes[i / 3] as int / 16 < 16);
        }
    }
    vstd::utf8::is_ascii_chars_encode_utf8(chars);
    assert forall|i: int| 0 <= i < bytes.len() implies #[trigger] escapes(code, bytes, i) by {
        assert(chars[3 * i] == '%');
        assert((3 * i + 1) / 3 == i && (3 * i + 2) / 3 == i);
        assert(chars[3 * i + 1] == hex_digit(bytes[i] as int / 16));
        assert(chars[3 * i + 2] == hex_digit(bytes[i] as int % 16));
    }
    lemma_escaped(code, bytes, 0);
    encoded_text_is_read_back(chars, text);
}

/// An escape that is broken off gives nothing: there is no text where a percent sign has fewer than
/// two bytes behind it.
pub proof fn broken_escapes_give_nothing(code: Seq<u8>, from: int, i: int)
    requires
        0 <= from <= i < code.len(),
        code.len() <= i + 2,
        code[i] == 37,
    ensures
        decode_from(code, from) is None,
    decreases i - from,
{
    if from < i {
        if code[from] == 37 {
            if from + 3 <= i {
                broken_escapes_give_nothing(code, from + 3, i);
            }
        } else {
            broken_escapes_give_nothing(code, from + 1, i);
        }
    }
}

/// A field of a query.
#[derive(Debug)]
pub struct QueryField {
    pub name: String,
    pub value: String,
}

impl Keyed for QueryField {
    open spec fn key_view(&self) -> Seq<char> {
        self.name@
    }

    fn key(&self) -> (r: &str) {
        self.name.as_str()
    }
}

/// The name and the value that a part of a query writes, where it writes both.
pub open spec fn field_view(part: Seq<char>) -> Option<(Seq<char>, Seq<char>)> {
    match split_once_view(part, '=') {
        Some(p) => match (decoded_text(p.0), decoded_text(p.1)) {
            (Some(k), Some(v)) => Some((k, v)),
            _ => None,
        },
        None => None,
    }
}

/// What a query holds: the value of each name.
pub open spec fn query_map(fields: Seq<QueryField>) -> Map<Seq<char>, Seq<char>> {
    Map::new(|k: Seq<char>| find_in(fields, k) is Some, |k: Seq<char>| find_in(fields, k).unwrap().value@)
}

/// The values of the names in the first `n` parts of a query; the last of a name counts.
pub open spec fn parts_map(parts: Seq<Seq<char>>, n: int) -> Map<Seq<char>, Seq<char>>
    decreases n,
{
    if n <= 0 {
        Map::empty()
    } else {
        match field_view(parts[n - 1]) {
            Some(f) => parts_map(parts, n - 1).insert(f.0, f.1),
            None => parts_map(parts, n - 1),
        }
    }
}

/// What the query of a request target holds.
pub open spec fn target_query(target: Seq<char>) -> Map<Seq<char>, Seq<char>> {
    match split_once_view(target, '?') {
        Some(p) => {
            let parts = split_view(p.1, '&');
            parts_map(parts, parts.len() as int)
        },
        None => Map::empty(),
    }
}

/// The fields of the query of a request target. Parts that cannot be decoded are passed over, and
/// the last value of a name counts.
pub fn parse_query(target: &str) -> (r: Vec<QueryField>)
    ensures
        query_map(r@) == target_query(target@),
{
    let mut out: Vec<QueryField> = Vec::new();
    proof {
        assert(query_map(out@) =~= Map::empty());
    }
    let query = match split_once(target, '?') {
        Some(p) => p.1,
        None => return out,
    };
    let parts = split(query.as_str(), '&');
    let ghost all = views(parts@);
    let mut i: usize = 0;
    while i < parts.len()
        invariant
            i <= parts.len(),
            all == views(parts@),
            query_map(out@) == parts_map(all, i as int),
        decreases parts.len() - i,
    {
        assert(all[i as int] == parts@[i as int]@);
        if let Some(p) = split_once(parts[i].as_str(), '=') {
            if let Some(name) = percent_decode(p.0.as_str()) {
                if let Some(value) = percent_decode(p.1.as_str()) {
                    let ghost before = out@;
                    let f = QueryField { name, value };
                    proof {
                        assert forall|k: Seq<char>|
                            #[trigger] find_in(upserted(before, f), k) == (if k == f.name@ {
                                Some(f)
                            } else {
                                find_in(before, k)
                            }) by {
                            crate::table::upserted_record_is_found(before, f, k);
                        }
                    }
                    upsert_by(&mut out, f);
                    proof {
                        assert(query_map(out@) =~= query_map(before).insert(f.name@, f.value@));
                    }
                }
            }
        }
        i += 1;
    }
    out
}

/// The number of a field of a query, or a default where it is none.
pub fn query_u64(query: &Vec<QueryField>, key: &str, default: u64) -> (r: u64)
    ensures
        r == (match find_in(query@, key@) {
            Some(f) => match parse_u64_view(f.value@) {
                Some(n) => n,
                None => default,
            },
            None => default,
        }),
{
    match lookup(query, key) {
        Some(f) => match parse_u64(f.value.as_str()) {
            Some(n) => n,
            None => default,
        },
        None => default,
    }
}

/// Whether a text is safe to pass on as a name.
pub open spec fn safe_name(s: Seq<char>) -> bool {
    0 < s.len() <= 200 && forall|i: int|
        0 <= i < s.len() ==> is_alnum(#[trigger] s[i]) || s[i] == '-' || s[i] == '_' || s[i] == '.' || s[i] == ':'
}

fn is_safe_name(s: &str) -> (r: bool)
    ensures
        r == safe_name(s@),
{
    let v = chars_of(s);
    if v.len() == 0 || v.len() > 200 {
        return false;
    }
    let mut i: usize = 0;
    while i < v.len()
        invariant
            i <= v.len(),
            v@ == s@,
            forall|k: int|
                0 <= k < i ==> is_alnum(#[trigger] s@[k]) || s@[k] == '-' || s@[k] == '_' || s@[k] == '.' || s@[k] == ':',
        decreases v.len() - i,
    {
        let c = v[i];
        if !is_alphanumeric(c) && c != '-' && c != '_' && c != '.' && c != ':' {
            assert(!(is_alnum(s@[i as int]) || s@[i as int] == '-' || s@[i as int] == '_' || s@[i as int] == '.'
                || s@[i as int] == ':'));
            return false;
        }
        i += 1;
    }
    true
}

/// The name in a field of a query, where it is safe to pass on.
pub open spec fn query_name(fields: Seq<QueryField>, key: Seq<char>) -> Option<Seq<char>> {
    match find_in(fields, key) {
        Some(f) => if safe_name(f.value@) {
            Some(f.value@)
        } else {
            None
        },
        None => None,
    }
}

/// The answer that a name is missing or not safe.
pub open spec fn name_required(key: Seq<char>) -> Seq<char> {
    "{\"error\":\"valid "@ + key + " is required\"}"@
}

/// The name in a field of a query: letters, digits and a few signs, two hundred of them at most.
pub fn safe_query_id(query: &Vec<QueryField>, key: &str) -> (r: Result<String, String>)
    ensures
        match query_name(query@, key@) {
            Some(s) => r matches Ok(x) && x@ == s,
            None => r matches Err(e) && e@ == name_required(key@),
        },
{
    if let Some(f) = lookup(query, key) {
        if is_safe_name(f.value.as_str()) {
            return Ok(f.value.clone());
        }
    }
    Err(concat3("{\"error\":\"valid ", key, " is required\"}"))
}

/// A name that is passed on cannot leave a directory: it holds no slash of either kind.
pub proof fn safe_names_hold_no_separator(fields: Seq<QueryField>, key: Seq<char>, i: int)
    requires
        query_name(fields, key) is Some,
        0 <= i < query_name(fields, key)->0.len(),
    ensures
        query_name(fields, key)->0[i] != '/',
        query_name(fields, key)->0[i] != '\\',
{
}

} // verus!
