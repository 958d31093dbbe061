//! Text primitives: comparison, searching, splitting and numbers in text.
//!
//! A string is modelled by its characters, `Seq<char>`.

use vstd::prelude::*;

verus! {

broadcast use vstd::string::group_string_axioms;

/// The characters of each string of a list.
pub open spec fn views(v: Seq<String>) -> Seq<Seq<char>> {
    v.map_values(|s: String| s@)
}

/// Whether two strings hold the same characters.
pub fn str_eq(a: &str, b: &str) -> (r: bool)
    ensures
        r == (a@ == b@),
{
    let x = a.as_bytes();
    let y = b.as_bytes();
    proof {
        vstd::utf8::encode_utf8_decode_utf8(a@);
        vstd::utf8::encode_utf8_decode_utf8(b@);
    }
    if x.len() != y.len() {
        return false;
    }
    let mut i: usize = 0;
    while i < x.len()
        invariant
            i <= x.len(),
            x.len() == y.len(),
            x@ == vstd::utf8::encode_utf8(a@),
            y@ == vstd::utf8::encode_utf8(b@),
            forall|j: int| 0 <= j < i ==> x@[j] == y@[j],
        decreases x.len() - i,
    {
        if x[i] != y[i] {
            return false;
        }
        i += 1;
    }
    assert(x@ =~= y@);
    true
}

/// Whether an optional string is present and equal to `b`.
pub fn opt_eq(a: &Option<String>, b: &str) -> (r: bool)
    ensures
        r == (a matches Some(s) && s@ == b@),
{
    match a {
        Some(s) => str_eq(s.as_str(), b),
        None => false,
    }
}

/// The characters of a string, one by one.
pub fn chars_of(s: &str) -> (r: Vec<char>)
    ensures
        r@ == s@,
{
    let mut out: Vec<char> = Vec::new();
    for c in it: s.chars()
        invariant
            it.seq() == s@,
            out@ == s@.take(it.index()),
    {
        proof {
            assert(s@.take(it.index() + 1) =~= s@.take(it.index()).push(c));
        }
        out.push(c);
    }
    assert(s@.take(s@.len() as int) =~= s@);
    out
}

/// The text `pieces[0] + pieces[1] + ...` of two pieces.
pub fn concat2(a: &str, b: &str) -> (r: String)
    ensures
        r@ == a@ + b@,
{
    let mut s = a.to_owned();
    s.append(b);
    s
}

/// Three pieces of text joined.
pub fn concat3(a: &str, b: &str, c: &str) -> (r: String)
    ensures
        r@ == a@ + b@ + c@,
{
    let mut s = a.to_owned();
    s.append(b);
    s.append(c);
    s
}

/// Four pieces of text joined.
pub fn concat4(a: &str, b: &str, c: &str, d: &str) -> (r: String)
    ensures
        r@ == a@ + b@ + c@ + d@,
{
    let mut s = concat3(a, b, c);
    s.append(d);
    s
}

/// Five pieces of text joined.
pub fn concat5(a: &str, b: &str, c: &str, d: &str, e: &str) -> (r: String)
    ensures
        r@ == a@ + b@ + c@ + d@ + e@,
{
    let mut s = concat4(a, b, c, d);
    s.append(e);
    s
}

/// The first `n` characters of a text.
pub fn take_chars(s: &str, n: usize) -> (r: String)
    ensures
        r@ == s@.take(if n < s@.len() { n as int } else { s@.len() as int }),
{
    let len = s.unicode_len();
    if n < len {
        s.substring_char(0, n).to_owned()
    } else {
        assert(s@.take(s@.len() as int) =~= s@);
        s.to_owned()
    }
}

/// The first position at or after `from` at which `needle` occurs in `hay`.
pub open spec fn find_from(hay: Seq<char>, needle: Seq<char>, from: int) -> Option<int>
    decreases hay.len() + 1 - from,
{
    if from < 0 || from + needle.len() > hay.len() {
        None
    } else if hay.subrange(from, from + needle.len()) == needle {
        Some(from)
    } else {
        find_from(hay, needle, from + 1)
    }
}

/// Whether `needle` occurs somewhere in `hay`.
pub open spec fn has_text(hay: Seq<char>, needle: Seq<char>) -> bool {
    find_from(hay, needle, 0) is Some
}

/// The first position at or after `from` that holds `c`.
pub open spec fn find_char(hay: Seq<char>, c: char, from: int) -> Option<int>
    decreases hay.len() - from,
{
    if from < 0 || from >= hay.len() {
        None
    } else if hay[from] == c {
        Some(from)
    } else {
        find_char(hay, c, from + 1)
    }
}

/// A position found lies inside the text and holds what was looked for.
pub proof fn lemma_find_from(hay: Seq<char>, needle: Seq<char>, from: int)
    requires
        0 <= from,
    ensures
        find_from(hay, needle, from) matches Some(i) ==> from <= i && i + needle.len() <= hay.len()
            && hay.subrange(i, i + needle.len()) == needle,
        forall|j: int|
            from <= j && j + needle.len() <= hay.len() && (find_from(hay, needle, from) matches Some(i)
                ==> j < i) ==> #[trigger] hay.subrange(j, j + needle.len()) != needle,
    decreases hay.len() + 1 - from,
{
    if from + needle.len() <= hay.len() && hay.subrange(from, from + needle.len()) != needle {
        lemma_find_from(hay, needle, from + 1);
    }
}

/// A position found lies inside the text, holds the character, and no earlier one does.
pub proof fn lemma_find_char(hay: Seq<char>, c: char, from: int)
    requires
        0 <= from,
    ensures
        find_char(hay, c, from) matches Some(i) ==> from <= i < hay.len() && hay[i] == c,
        forall|j: int|
            from <= j < hay.len() && (find_char(hay, c, from) matches Some(i) ==> j < i)
                ==> #[trigger] hay[j] != c,
    decreases hay.len() - from,
{
    if from < hay.len() && hay[from] != c {
        lemma_find_char(hay, c, from + 1);
    }
}

fn matches_at(hay: &Vec<char>, needle: &Vec<char>, at: usize) -> (r: bool)
    requires
        at + needle@.len() <= hay@.len(),
    ensures
        r == (hay@.subrange(at as int, at + needle@.len()) == needle@),
{
    let mut i: usize = 0;
    while i < needle.len()
        invariant
            i <= needle.len(),
            at + needle.len() <= hay.len(),
            forall|j: int| 0 <= j < i ==> hay@[at + j] == needle@[j],
        decreases needle@.len() - i,
    {
        if hay[at + i] != needle[i] {
            proof {
                assert(hay@.subrange(at as int, at + needle@.len())[i as int] != needle@[i as int]);
            }
            return false;
        }
        i += 1;
    }
    assert(hay@.subrange(at as int, at + needle@.len()) =~= needle@);
    true
}

/// The first position at or after `from` at which `needle` occurs.
pub fn find_chars(hay: &Vec<char>, needle: &Vec<char>, from: usize) -> (r: Option<usize>)
    ensures
        match r {
            Some(i) => find_from(hay@, needle@, from as int) == Some(i as int),
            None => find_from(hay@, needle@, from as int) is None,
        },
{
    let mut i: usize = from;
    loop
        invariant
            from <= i,
            find_from(hay@, needle@, from as int) == find_from(hay@, needle@, i as int),
        decreases hay@.len() + 1 - i,
    {
        if needle.len() > hay.len() || i > hay.len() - needle.len() {
            return None;
        }
        if matches_at(hay, needle, i) {
            return Some(i);
        }
        proof {
            if needle@.len() == 0 {
                assert(hay@.subrange(i as int, i as int) =~= needle@);
            }
        }
        i += 1;
    }
}

/// The first position of `needle` in `hay`, counted in characters.
pub fn find(hay: &str, needle: &str) -> (r: Option<usize>)
    ensures
        match r {
            Some(i) => find_from(hay@, needle@, 0) == Some(i as int) && i + needle@.len() <= hay@.len(),
            None => find_from(hay@, needle@, 0) is None,
        },
{
    let h = chars_of(hay);
    let n = chars_of(needle);
    proof {
        lemma_find_from(hay@, needle@, 0);
    }
    find_chars(&h, &n, 0)
}

/// Whether `needle` occurs in `hay`.
pub fn contains(hay: &str, needle: &str) -> (r: bool)
    ensures
        r == has_text(hay@, needle@),
{
    find(hay, needle).is_some()
}

/// Whether `s` begins with `p`.
pub fn starts_with(s: &str, p: &str) -> (r: bool)
    ensures
        r == p@.is_prefix_of(s@),
{
    let h = chars_of(s);
    let n = chars_of(p);
    n.len() <= h.len() && matches_at(&h, &n, 0)
}

/// Whether `s` ends with `p`.
pub fn ends_with(s: &str, p: &str) -> (r: bool)
    ensures
        r == p@.is_suffix_of(s@),
{
    let h = chars_of(s);
    let n = chars_of(p);
    n.len() <= h.len() && matches_at(&h, &n, h.len() - n.len())
}

/// What follows `p` in `s`, where `s` begins with `p`.
pub fn strip_prefix(s: &str, p: &str) -> (r: Option<String>)
    ensures
        match r {
            Some(rest) => p@.is_prefix_of(s@) && rest@ == s@.skip(p@.len() as int),
            None => !p@.is_prefix_of(s@),
        },
{
    if starts_with(s, p) {
        let n = p.unicode_len();
        let len = s.unicode_len();
        let rest = s.substring_char(n, len).to_owned();
        assert(rest@ =~= s@.skip(p@.len() as int));
        Some(rest)
    } else {
        None
    }
}

/// The first position of `c` at or after `from`.
pub fn find_char_from(hay: &Vec<char>, c: char, from: usize) -> (r: Option<usize>)
    ensures
        match r {
            Some(i) => find_char(hay@, c, from as int) == Some(i as int) && from <= i < hay@.len(),
            None => find_char(hay@, c, from as int) is None,
        },
{
    let mut i: usize = from;
    while i < hay.len()
        invariant
            from <= i,
            i <= hay@.len() || i == from,
            find_char(hay@, c, from as int) == find_char(hay@, c, i as int),
        decreases hay@.len() - i,
    {
        if hay[i] == c {
            return Some(i);
        }
        i += 1;
    }
    None
}

/// Whether the character occurs in the text.
pub open spec fn has_char(s: Seq<char>, c: char) -> bool {
    find_char(s, c, 0) is Some
}

/// Whether `c` occurs in `s`.
pub fn contains_char(s: &str, c: char) -> (r: bool)
    ensures
        r == has_char(s@, c),
{
    let v = chars_of(s);
    find_char_from(&v, c, 0).is_some()
}

/// The parts of a text around the first occurrence of a character.
pub open spec fn split_once_view(s: Seq<char>, c: char) -> Option<(Seq<char>, Seq<char>)> {
    match find_char(s, c, 0) {
        Some(i) => Some((s.take(i), s.skip(i + 1))),
        None => None,
    }
}

/// The parts of a text between all occurrences of a character.
pub open spec fn split_view(s: Seq<char>, c: char) -> Seq<Seq<char>>
    decreases s.len(),
{
    match find_char(s, c, 0) {
        Some(i) => if 0 <= i < s.len() {
            seq![s.take(i)] + split_view(s.skip(i + 1), c)
        } else {
            seq![s]
        },
        None => seq![s],
    }
}

/// The parts of `s` before and after the first `c`.
pub fn split_once(s: &str, c: char) -> (r: Option<(String, String)>)
    ensures
        match r {
            Some(p) => split_once_view(s@, c) == Some((p.0@, p.1@)),
            None => split_once_view(s@, c) is None,
        },
{
    let v = chars_of(s);
    match find_char_from(&v, c, 0) {
        None => None,
        Some(i) => {
            let len = v.len();
            let a = s.substring_char(0, i).to_owned();
            let b = s.substring_char(i + 1, len).to_owned();
            assert(a@ =~= s@.take(i as int));
            assert(b@ =~= s@.skip(i + 1));
            Some((a, b))
        },
    }
}

/// The parts of `s` between all occurrences of `c`.
pub fn split(s: &str, c: char) -> (r: Vec<String>)
    ensures
        views(r@) == split_view(s@, c),
{
    let v = chars_of(s);
    let mut out: Vec<String> = Vec::new();
    let mut from: usize = 0;
    proof {
        assert(s@.skip(0) =~= s@);
        assert(views(out@) + split_view(s@, c) =~= split_view(s@, c));
    }
    loop
        invariant
            from <= v.len(),
            v@ == s@,
            split_view(s@, c) == views(out@) + split_view(s@.skip(from as int), c),
        decreases v@.len() - from,
    {
        let ghost rest = s@.skip(from as int);
        let ghost before = out@;
        proof {
            lemma_find_shift(s@, c, from as int);
            lemma_find_char(rest, c, 0);
        }
        match find_char_from(&v, c, from) {
            None => {
                let len = v.len();
                let part = s.substring_char(from, len).to_owned();
                out.push(part);
                proof {
                    assert(part@ =~= rest);
                    assert(split_view(rest, c) =~= seq![rest]);
                    assert(views(out@) =~= views(before) + seq![rest]);
                }
                return out;
            },
            Some(i) => {
                let part = s.substring_char(from, i).to_owned();
                out.push(part);
                proof {
                    let k = i - from;
                    assert(part@ =~= rest.take(k));
                    assert(rest.skip(k + 1) =~= s@.skip(i + 1));
                    assert(split_view(rest, c) == seq![rest.take(k)] + split_view(rest.skip(k + 1), c));
                    assert(views(out@) =~= views(before) + seq![rest.take(k)]);
                    assert(views(before) + (seq![rest.take(k)] + split_view(s@.skip(i + 1), c))
                        =~= views(out@) + split_view(s@.skip(i + 1), c));
                }
                from = i + 1;
            },
        }
    }
}

proof fn lemma_find_shift(s: Seq<char>, c: char, from: int)
    requires
        0 <= from <= s.len(),
    ensures
        match find_char(s, c, from) {
            Some(i) => find_char(s.skip(from), c, 0) == Some(i - from),
            None => find_char(s.skip(from), c, 0) is None,
        },
{
    lemma_find_char(s, c, from);
    lemma_find_char(s.skip(from), c, 0);
    match find_char(s, c, from) {
        Some(i) => {
            assert(s.skip(from)[i - from] == c);
            match find_char(s.skip(from), c, 0) {
                Some(j) => {
                    assert(s[from + j] == c);
                },
                None => {},
            }
        },
        None => {
            match find_char(s.skip(from), c, 0) {
                Some(j) => {
                    assert(s[from + j] == c);
                },
                None => {},
            }
        },
    }
}

/// Whether a character is a white space character of Unicode.
pub open spec fn is_white(c: char) -> bool {
    let n = c as u32;
    (0x09 <= n && n <= 0x0d) || n == 0x20 || n == 0x85 || n == 0xa0 || n == 0x1680 || (0x2000 <= n && n
        <= 0x200a) || n == 0x2028 || n == 0x2029 || n == 0x202f || n == 0x205f || n == 0x3000
}

/// Whether `c` is white space.
pub fn is_whitespace(c: char) -> (r: bool)
    ensures
        r == is_white(c),
{
    let n: u32 = c as u32;
    (0x09 <= n && n <= 0x0d) || n == 0x20 || n == 0x85 || n == 0xa0 || n == 0x1680 || (0x2000 <= n && n
        <= 0x200a) || n == 0x2028 || n == 0x2029 || n == 0x202f || n == 0x205f || n == 0x3000
}

/// A text without the white space at its start.
pub open spec fn trim_start_view(s: Seq<char>) -> Seq<char>
    decreases s.len(),
{
    if s.len() > 0 && is_white(s[0]) {
        trim_start_view(s.skip(1))
    } else {
        s
    }
}

/// A text without the white space at its end.
pub open spec fn trim_end_view(s: Seq<char>) -> Seq<char>
    decreases s.len(),
{
    if s.len() > 0 && is_white(s.last()) {
        trim_end_view(s.drop_last())
    } else {
        s
    }
}

/// A text without the white space around it.
pub open spec fn trim_view(s: Seq<char>) -> Seq<char> {
    trim_end_view(trim_start_view(s))
}

/// `s` without the white space around it.
pub fn trim(s: &str) -> (r: String)
    ensures
        r@ == trim_view(s@),
{
    let v = chars_of(s);
    let mut a: usize = 0;
    assert(s@.skip(0) =~= s@);
    while a < v.len() && is_whitespace(v[a])
        invariant
            a <= v@.len(),
            v@ == s@,
            trim_start_view(s@) == trim_start_view(s@.skip(a as int)),
        decreases v@.len() - a,
    {
        assert(s@.skip(a as int).skip(1) =~= s@.skip(a + 1));
        a += 1;
    }
    let ghost rest = s@.skip(a as int);
    let mut b: usize = v.len();
    assert(s@.subrange(a as int, b as int) =~= rest);
    while b > a && is_whitespace(v[b - 1])
        invariant
            a <= b <= v@.len(),
            v@ == s@,
            trim_end_view(rest) == trim_end_view(s@.subrange(a as int, b as int)),
        decreases b,
    {
        proof {
            let cur = s@.subrange(a as int, b as int);
            assert(cur.drop_last() =~= s@.subrange(a as int, b - 1));
            assert(cur.last() == s@[b - 1]);
        }
        b -= 1;
    }
    proof {
        let cur = s@.subrange(a as int, b as int);
        assert(trim_end_view(cur) == cur);
        assert(trim_start_view(rest) == rest);
    }
    s.substring_char(a, b).to_owned()
}

/// The character of a decimal digit.
pub open spec fn digit_char(d: int) -> char {
    (d + 48) as char
}

/// A number in decimal.
pub open spec fn decimal(n: nat) -> Seq<char>
    decreases n,
{
    if n < 10 {
        seq![digit_char(n as int)]
    } else {
        decimal(n / 10).push(digit_char((n % 10) as int))
    }
}

fn digit_text(d: u64) -> (r: &'static str)
    requires
        d < 10,
    ensures
        r@ == seq![digit_char(d as int)],
{
    proof {
        reveal_strlit("0");
        reveal_strlit("1");
        reveal_strlit("2");
        reveal_strlit("3");
        reveal_strlit("4");
        reveal_strlit("5");
        reveal_strlit("6");
        reveal_strlit("7");
        reveal_strlit("8");
        reveal_strlit("9");
        assert("0"@ =~= seq!['0']);
        assert("1"@ =~= seq!['1']);
        assert("2"@ =~= seq!['2']);
        assert("3"@ =~= seq!['3']);
        assert("4"@ =~= seq!['4']);
        assert("5"@ =~= seq!['5']);
        assert("6"@ =~= seq!['6']);
        assert("7"@ =~= seq!['7']);
        assert("8"@ =~= seq!['8']);
        assert("9"@ =~= seq!['9']);
    }
    if d == 0 {
        "0"
    } else if d == 1 {
        "1"
    } else if d == 2 {
        "2"
    } else if d == 3 {
        "3"
    } else if d == 4 {
        "4"
    } else if d == 5 {
        "5"
    } else if d == 6 {
        "6"
    } else if d == 7 {
        "7"
    } else if d == 8 {
        "8"
    } else {
        "9"
    }
}

/// `n` in decimal.
pub fn u64_text(n: u64) -> (r: String)
    ensures
        r@ == decimal(n as nat),
    decreases n,
{
    if n < 10 {
        digit_text(n).to_owned()
    } else {
        let mut s = u64_text(n / 10);
        let d = digit_text(n % 10);
        let ghost before = s@;
        s.append(d);
        assert(s@ =~= before.push(digit_char((n % 10) as int)));
        s
    }
}

/// `n` in decimal.
pub fn u128_text(n: u128) -> (r: String)
    ensures
        r@ == decimal(n as nat),
    decreases n,
{
    if n < 10 {
        digit_text(n as u64).to_owned()
    } else {
        let mut s = u128_text(n / 10);
        let d = digit_text((n % 10) as u64);
        let ghost before = s@;
        s.append(d);
        assert(s@ =~= before.push(digit_char((n % 10) as int)));
        s
    }
}

/// Whether a character is a decimal digit.
pub open spec fn is_digit(c: char) -> bool {
    '0' <= c && c <= '9'
}

/// The value of a run of decimal digits.
pub open spec fn digits_value(s: Seq<char>) -> nat
    decreases s.len(),
{
    if s.len() == 0 {
        0
    } else {
        digits_value(s.drop_last()) * 10 + ((s.last() as u32 - 48) as nat)
    }
}

/// The digits of a number in text: all of it, or what follows a leading plus sign.
pub open spec fn number_digits(s: Seq<char>) -> Seq<char> {
    if s.len() > 0 && s[0] == '+' {
        s.skip(1)
    } else {
        s
    }
}

/// The number that a text writes, where it writes one that fits in 64 bits.
pub open spec fn parse_u64_view(s: Seq<char>) -> Option<u64> {
    let d = number_digits(s);
    if d.len() > 0 && (forall|i: int| 0 <= i < d.len() ==> is_digit(#[trigger] d[i])) && digits_value(d)
        <= u64::MAX {
        Some(digits_value(d) as u64)
    } else {
        None
    }
}

proof fn lemma_digits_grow(s: Seq<char>, k: int)
    requires
        0 <= k <= s.len(),
        forall|i: int| 0 <= i < s.len() ==> is_digit(#[trigger] s[i]),
    ensures
        digits_value(s.take(k)) <= digits_value(s),
    decreases s.len(),
{
    if k < s.len() {
        assert(s.drop_last().take(k) =~= s.take(k));
        lemma_digits_grow(s.drop_last(), k);
        let p = digits_value(s.drop_last());
        assert(p <= p * 10) by (nonlinear_arith);
    } else {
        assert(s.take(k) =~= s);
    }
}

/// The number that `s` writes in decimal, with an optional plus sign in front.
pub fn parse_u64(s: &str) -> (r: Option<u64>)
    ensures
        r == parse_u64_view(s@),
{
    let v = chars_of(s);
    let mut i: usize = 0;
    if v.len() > 0 && v[0] == '+' {
        i = 1;
    }
    let start = i;
    let ghost d = number_digits(s@);
    assert(start == 0 ==> s@.skip(0) =~= s@);
    if start >= v.len() {
        return None;
    }
    let mut value: u64 = 0;
    while i < v.len()
        invariant
            start <= i <= v@.len(),
            start < v@.len(),
            start <= 1,
            v@ == s@,
            d == s@.skip(start as int),
            d == number_digits(s@),
            forall|j: int| 0 <= j < i - start ==> is_digit(#[trigger] d[j]),
            value == digits_value(d.take(i - start)),
        decreases v@.len() - i,
    {
        let c = v[i];
        assert(d[i - start] == c);
        if c < '0' || c > '9' {
            return None;
        }
        let digit: u64 = (c as u32 - 48) as u64;
        proof {
            let k = i - start;
            assert(d.take(k + 1).drop_last() =~= d.take(k));
            assert(d.take(k + 1).last() == c);
        }
        if value > u64::MAX / 10 || value * 10 > u64::MAX - digit {
            proof {
                if forall|j: int| 0 <= j < d.len() ==> is_digit(#[trigger] d[j]) {
                    lemma_digits_grow(d, i - start + 1);
                }
            }
            return None;
        }
        value = value * 10 + digit;
        i += 1;
    }
    assert(d.take(v@.len() - start) =~= d);
    Some(value)
}

/// Whether `c` is a decimal digit or an ASCII letter.
pub open spec fn is_alnum(c: char) -> bool {
    ('0' <= c && c <= '9') || ('a' <= c && c <= 'z') || ('A' <= c && c <= 'Z')
}

/// Whether `c` is a decimal digit or an ASCII letter.
pub fn is_alphanumeric(c: char) -> (r: bool)
    ensures
        r == is_alnum(c),
{
    ('0' <= c && c <= '9') || ('a' <= c && c <= 'z') || ('A' <= c && c <= 'Z')
}

/// The lower case form of an ASCII letter; any other character itself.
pub open spec fn lower_char(c: char) -> char {
    if 'A' <= c && c <= 'Z' {
        ((c as u32) + 32) as char
    } else {
        c
    }
}

/// A text with its ASCII letters in lower case.
pub open spec fn lower_view(s: Seq<char>) -> Seq<char> {
    s.map_values(|c: char| lower_char(c))
}

/// `c` in lower case, where it is an ASCII letter.
pub fn to_lower(c: char) -> (r: char)
    ensures
        r == lower_char(c),
{
    if 'A' <= c && c <= 'Z' {
        let n: u8 = c as u8;
        (n + 32) as char
    } else {
        c
    }
}

/// The characters of `s`, ASCII letters in lower case.
pub fn lower_chars(s: &str) -> (r: Vec<char>)
    ensures
        r@ == lower_view(s@),
{
    let v = chars_of(s);
    let mut out: Vec<char> = Vec::new();
    let mut i: usize = 0;
    while i < v.len()
        invariant
            i <= v@.len(),
            v@ == s@,
            out@ == lower_view(s@.take(i as int)),
        decreases v@.len() - i,
    {
        out.push(to_lower(v[i]));
        proof {
            assert(s@.take(i + 1) =~= s@.take(i as int).push(s@[i as int]));
            assert(out@ =~= lower_view(s@.take(i + 1)));
        }
        i += 1;
    }
    assert(s@.take(s@.len() as int) =~= s@);
    out
}

/// The lower case form of an ASCII capital letter, as a text.
fn small_letter(c: char) -> (r: &'static str)
    requires
        'A' <= c <= 'Z',
    ensures
        r@ == seq![lower_char(c)],
{
    proof {
        reveal_strlit("a");
        assert("a"@ =~= seq!['a']);
        reveal_strlit("b");
        assert("b"@ =~= seq!['b']);
        reveal_strlit("c");
        assert("c"@ =~= seq!['c']);
        reveal_strlit("d");
        assert("d"@ =~= seq!['d']);
        reveal_strlit("e");
        assert("e"@ =~= seq!['e']);
        reveal_strlit("f");
        assert("f"@ =~= seq!['f']);
        reveal_strlit("g");
        assert("g"@ =~= seq!['g']);
        reveal_strlit("h");
        assert("h"@ =~= seq!['h']);
        reveal_strlit("i");
        assert("i"@ =~= seq!['i']);
        reveal_strlit("j");
        assert("j"@ =~= seq!['j']);
        reveal_strlit("k");
        assert("k"@ =~= seq!['k']);
        reveal_strlit("l");
        assert("l"@ =~= seq!['l']);
        reveal_strlit("m");
        assert("m"@ =~= seq!['m']);
        reveal_strlit("n");
        assert("n"@ =~= seq!['n']);
        reveal_strlit("o");
        assert("o"@ =~= seq!['o']);
        reveal_strlit("p");
        assert("p"@ =~= seq!['p']);
        reveal_strlit("q");
        assert("q"@ =~= seq!['q']);
        reveal_strlit("r");
        assert("r"@ =~= seq!['r']);
        reveal_strlit("s");
        assert("s"@ =~= seq!['s']);
        reveal_strlit("t");
        assert("t"@ =~= seq!['t']);
        reveal_strlit("u");
        assert("u"@ =~= seq!['u']);
        reveal_strlit("v");
        assert("v"@ =~= seq!['v']);
        reveal_strlit("w");
        assert("w"@ =~= seq!['w']);
        reveal_strlit("x");
        assert("x"@ =~= seq!['x']);
        reveal_strlit("y");
        assert("y"@ =~= seq!['y']);
        reveal_strlit("z");
        assert("z"@ =~= seq!['z']);
    }
    match c {
        'A' => "a",
        'B' => "b",
        'C' => "c",
        'D' => "d",
        'E' => "e",
        'F' => "f",
        'G' => "g",
        'H' => "h",
        'I' => "i",
        'J' => "j",
        'K' => "k",
        'L' => "l",
        'M' => "m",
        'N' => "n",
        'O' => "o",
        'P' => "p",
        'Q' => "q",
        'R' => "r",
        'S' => "s",
        'T' => "t",
        'U' => "u",
        'V' => "v",
        'W' => "w",
        'X' => "x",
        'Y' => "y",
        _ => "z",
    }
}

/// A text with its ASCII letters in lower case, and every other character as it is.
pub fn lowercase(s: &str) -> (r: String)
    ensures
        r@ == lower_view(s@),
{
    let v = chars_of(s);
    let mut out = String::new();
    let mut i: usize = 0;
    assert(out@ =~= lower_view(s@.take(0)));
    while i < v.len()
        invariant
            i <= v@.len(),
            v@ == s@,
            out@ == lower_view(s@.take(i as int)),
        decreases v@.len() - i,
    {
        let c = v[i];
        let piece = if 'A' <= c && c <= 'Z' {
            small_letter(c)
        } else {
            s.substring_char(i, i + 1)
        };
        let ghost before = out@;
        out = concat2(out.as_str(), piece);
        proof {
            assert(piece@ =~= seq![lower_char(c)]);
            assert(s@.take(i + 1) =~= s@.take(i as int).push(s@[i as int]));
            assert(out@ =~= lower_view(s@.take(i + 1)));
        }
        i += 1;
    }
    assert(s@.take(s@.len() as int) =~= s@);
    out
}

/// Whether two texts are equal up to the case of ASCII letters.
pub fn eq_ignore_case(a: &str, b: &str) -> (r: bool)
    ensures
        r == (lower_view(a@) == lower_view(b@)),
{
    let x = lower_chars(a);
    let y = lower_chars(b);
    if x.len() != y.len() {
        return false;
    }
    matches_whole(&x, &y)
}

fn matches_whole(x: &Vec<char>, y: &Vec<char>) -> (r: bool)
    requires
        x@.len() == y@.len(),
    ensures
        r == (x@ == y@),
{
    assert(x@.subrange(0, y@.len() as int) =~= x@);
    matches_at(x, y, 0)
}

/// Whether a list holds a text.
pub fn list_has(items: &Vec<String>, s: &str) -> (r: bool)
    ensures
        r == views(items@).contains(s@),
{
    let mut i: usize = 0;
    while i < items.len()
        invariant
            i <= items@.len(),
            forall|j: int| 0 <= j < i ==> items@[j]@ != s@,
        decreases items@.len() - i,
    {
        if str_eq(items[i].as_str(), s) {
            proof {
                assert(views(items@)[i as int] == s@);
            }
            return true;
        }
        i += 1;
    }
    proof {
        assert forall|j: int| 0 <= j < views(items@).len() implies views(items@)[j] != s@ by {
            assert(items@[j]@ != s@);
        }
    }
    false
}

/// Whether a text comes before another in the order of their characters.
pub open spec fn text_lt(a: Seq<char>, b: Seq<char>) -> bool
    decreases a.len(),
{
    if b.len() == 0 {
        false
    } else if a.len() == 0 {
        true
    } else if a[0] == b[0] {
        text_lt(a.skip(1), b.skip(1))
    } else {
        a[0] < b[0]
    }
}

/// Whether `a` comes before `b`.
pub fn str_lt(a: &str, b: &str) -> (r: bool)
    ensures
        r == text_lt(a@, b@),
{
    let x = chars_of(a);
    let y = chars_of(b);
    let mut i: usize = 0;
    proof {
        assert(a@.skip(0) =~= a@);
        assert(b@.skip(0) =~= b@);
    }
    while i < x.len() && i < y.len()
        invariant
            x@ == a@,
            y@ == b@,
            i <= x@.len(),
            i <= y@.len(),
            text_lt(a@, b@) == text_lt(a@.skip(i as int), b@.skip(i as int)),
        decreases x@.len() - i,
    {
        proof {
            assert(a@.skip(i as int).skip(1) =~= a@.skip(i + 1));
            assert(b@.skip(i as int).skip(1) =~= b@.skip(i + 1));
        }
        if x[i] != y[i] {
            return x[i] < y[i];
        }
        i += 1;
    }
    i < y.len()
}

/// The order of texts is total: of two different texts one comes first, and only one.
pub proof fn text_order_is_total(a: Seq<char>, b: Seq<char>)
    ensures
        text_lt(a, b) ==> !text_lt(b, a) && a != b,
        a != b ==> text_lt(a, b) || text_lt(b, a),
    decreases a.len(),
{
    if a.len() > 0 && b.len() > 0 && a[0] == b[0] {
        text_order_is_total(a.skip(1), b.skip(1));
        if a.skip(1) == b.skip(1) {
            assert(a =~= seq![a[0]] + a.skip(1));
            assert(b =~= seq![b[0]] + b.skip(1));
        }
    } else if a.len() == 0 && b.len() == 0 {
        assert(a =~= b);
    }
}

/// The order of texts is transitive.
pub proof fn text_order_is_transitive(a: Seq<char>, b: Seq<char>, c: Seq<char>)
    requires
        text_lt(a, b),
        text_lt(b, c),
    ensures
        text_lt(a, c),
    decreases a.len(),
{
    if a.len() > 0 && a[0] == b[0] && b[0] == c[0] {
        text_order_is_transitive(a.skip(1), b.skip(1), c.skip(1));
    }
}

/// A copy of a list of texts.
pub fn clone_list(items: &Vec<String>) -> (r: Vec<String>)
    ensures
        r@ == items@,
{
    let mut out: Vec<String> = Vec::new();
    let mut i: usize = 0;
    while i < items.len()
        invariant
            i <= items@.len(),
            out@ == items@.take(i as int),
        decreases items@.len() - i,
    {
        out.push(items[i].clone());
        assert(items@.take(i + 1) =~= items@.take(i as int).push(items@[i as int]));
        i += 1;
    }
    assert(items@.take(items@.len() as int) =~= items@);
    out
}

/// A text with each occurrence of another, from the left, replaced.
pub open spec fn replace_view(s: Seq<char>, from: Seq<char>, to: Seq<char>) -> Seq<char>
    decreases s.len(),
{
    if from.len() == 0 {
        s
    } else {
        match find_from(s, from, 0) {
            Some(i) => if 0 <= i && i + from.len() <= s.len() {
                s.take(i) + to + replace_view(s.skip(i + from.len()), from, to)
            } else {
                s
            },
            None => s,
        }
    }
}

/// `s` with each occurrence of `from`, which is not empty, replaced by `to`.
pub fn replace(s: &str, from: &str, to: &str) -> (r: String)
    requires
        from@.len() > 0,
    ensures
        r@ == replace_view(s@, from@, to@),
    decreases s@.len(),
{
    match find(s, from) {
        Some(i) => {
            proof {
                lemma_find_from(s@, from@, 0);
            }
            let n = from.unicode_len();
            let len = s.unicode_len();
            let head = s.substring_char(0, i);
            let tail = s.substring_char(i + n, len);
            assert(tail@ =~= s@.skip(i + n));
            assert(head@ =~= s@.take(i as int));
            let rest = replace(tail, from, to);
            concat3(head, to, rest.as_str())
        },
        None => s.to_owned(),
    }
}

} // verus!
