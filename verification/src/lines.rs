//! Lines and words of a text.

use crate::text::{chars_of, is_white, is_whitespace, split, split_view, trim_start_view, views};
use vstd::prelude::*;

verus! {

/// A text without a carriage return at its end.
pub open spec fn strip_cr(s: Seq<char>) -> Seq<char> {
    if s.len() > 0 && s.last() == '\r' {
        s.drop_last()
    } else {
        s
    }
}

/// The lines of a text from its parts between line feeds: a carriage return before a line feed
/// belongs to the end of the line, and nothing behind the last line feed is no line.
pub open spec fn lines_of(parts: Seq<Seq<char>>) -> Seq<Seq<char>> {
    let ended = Seq::new((parts.len() - 1) as nat, |i: int| strip_cr(parts[i]));
    if parts.last().len() == 0 {
        ended
    } else {
        ended.push(parts.last())
    }
}

/// The lines of a text.
pub open spec fn lines_view(s: Seq<char>) -> Seq<Seq<char>> {
    lines_of(split_view(s, '\n'))
}

fn without_cr(s: &str) -> (r: String)
    ensures
        r@ == strip_cr(s@),
{
    let n = s.unicode_len();
    if n > 0 && s.get_char(n - 1) == '\r' {
        let r = s.substring_char(0, n - 1).to_owned();
        assert(r@ =~= s@.drop_last());
        r
    } else {
        s.to_owned()
    }
}

proof fn lemma_split_nonempty(s: Seq<char>, c: char)
    ensures
        split_view(s, c).len() > 0,
    decreases s.len(),
{
}

/// The lines of `s`.
pub fn lines(s: &str) -> (r: Vec<String>)
    ensures
        views(r@) == lines_view(s@),
{
    let parts = split(s, '\n');
    let ghost all = views(parts@);
    proof {
        lemma_split_nonempty(s@, '\n');
    }
    let mut out: Vec<String> = Vec::new();
    let mut i: usize = 0;
    let n = parts.len();
    while i + 1 < n
        invariant
            n == parts.len(),
            n > 0,
            i < n,
            all == views(parts@),
            out@.len() == i,
            forall|k: int| 0 <= k < i ==> (#[trigger] out@[k])@ == strip_cr(all[k]),
        decreases n - i,
    {
        out.push(without_cr(parts[i].as_str()));
        i += 1;
    }
    let ghost ended = out@;
    let last = &parts[n - 1];
    if !last.as_str().is_empty() {
        out.push(last.clone());
    }
    proof {
        assert(all.last() == last@);
        assert(views(out@) =~= lines_of(all));
    }
    out
}

/// Where the first white space of a text is, at or after a position; its length where there is
/// none.
pub open spec fn word_end(s: Seq<char>, from: int) -> int
    decreases s.len() - from,
{
    if from < 0 || from >= s.len() || is_white(s[from]) {
        from
    } else {
        word_end(s, from + 1)
    }
}

/// The parts of a text between white space.
pub open spec fn words_view(s: Seq<char>) -> Seq<Seq<char>>
    decreases s.len(),
{
    let t = trim_start_view(s);
    let k = word_end(t, 0);
    if t.len() == 0 || k <= 0 || k > t.len() || t.len() > s.len() {
        Seq::empty()
    } else {
        seq![t.take(k)] + words_view(t.skip(k))
    }
}

proof fn lemma_trim_start(s: Seq<char>)
    ensures
        trim_start_view(s).len() <= s.len(),
        trim_start_view(s).len() > 0 ==> !is_white(trim_start_view(s)[0]),
    decreases s.len(),
{
    if s.len() > 0 && is_white(s[0]) {
        lemma_trim_start(s.skip(1));
    }
}

proof fn lemma_word_end(s: Seq<char>, from: int)
    requires
        0 <= from <= s.len(),
    ensures
        from <= word_end(s, from) <= s.len(),
        from < s.len() && !is_white(s[from]) ==> from < word_end(s, from),
    decreases s.len() - from,
{
    if from < s.len() && !is_white(s[from]) {
        lemma_word_end(s, from + 1);
    }
}

/// The parts of `s` between white space.
pub fn words(s: &str) -> (r: Vec<String>)
    ensures
        views(r@) == words_view(s@),
{
    let v = chars_of(s);
    let n = v.len();
    let mut out: Vec<String> = Vec::new();
    let mut at: usize = 0;
    proof {
        assert(s@.skip(0) =~= s@);
        assert(views(out@) + words_view(s@) =~= words_view(s@));
    }
    while at < n
        invariant
            n == v.len(),
            v@ == s@,
            at <= n,
            words_view(s@) == views(out@) + words_view(s@.skip(at as int)),
        decreases n - at,
    {
        let ghost rest = s@.skip(at as int);
        if is_whitespace(v[at]) {
            proof {
                assert(rest.skip(1) =~= s@.skip(at + 1));
                assert(rest[0] == s@[at as int]);
                lemma_trim_start(rest);
                lemma_trim_start(rest.skip(1));
                lemma_words_skip(rest);
            }
            at += 1;
        } else {
            let mut end: usize = at;
            proof {
                assert(rest[0] == s@[at as int]);
                assert(trim_start_view(rest) == rest);
            }
            while end < n && !is_whitespace(v[end])
                invariant
                    n == v.len(),
                    v@ == s@,
                    at <= end <= n,
                    rest == s@.skip(at as int),
                    word_end(rest, 0) == word_end(rest, end - at),
                decreases n - end,
            {
                assert(rest[end - at] == s@[end as int]);
                end += 1;
            }
            proof {
                if end < n {
                    assert(rest[end - at] == s@[end as int]);
                }
                assert(word_end(rest, 0) == end - at);
                lemma_word_end(rest, 0);
            }
            let word = s.substring_char(at, end).to_owned();
            let ghost before = out@;
            out.push(word);
            proof {
                let k = end - at;
                assert(word@ =~= rest.take(k));
                assert(rest.skip(k) =~= s@.skip(end as int));
                assert(words_view(rest) == seq![rest.take(k)] + words_view(rest.skip(k)));
                assert(views(out@) =~= views(before).push(rest.take(k)));
                assert(views(before) + (seq![rest.take(k)] + words_view(rest.skip(k))) =~= views(out@) + words_view(
                    s@.skip(end as int),
                ));
            }
            at = end;
        }
    }
    proof {
        let rest = s@.skip(n as int);
        assert(rest.len() == 0);
        assert(words_view(rest) =~= Seq::empty());
        assert(views(out@) + Seq::<Seq<char>>::empty() =~= views(out@));
    }
    out
}

proof fn lemma_words_skip(s: Seq<char>)
    requires
        s.len() > 0,
        is_white(s[0]),
    ensures
        words_view(s) == words_view(s.skip(1)),
{
    lemma_trim_start(s.skip(1));
    assert(trim_start_view(s) == trim_start_view(s.skip(1)));
    lemma_word_end(trim_start_view(s), 0);
}

/// A word holds no white space and is not empty.
pub proof fn words_hold_no_space(s: Seq<char>, i: int, k: int)
    requires
        0 <= i < words_view(s).len(),
    ensures
        words_view(s)[i].len() > 0,
        0 <= k < words_view(s)[i].len() ==> !is_white(words_view(s)[i][k]),
    decreases s.len(),
{
    let t = trim_start_view(s);
    let e = word_end(t, 0);
    lemma_word_is_black(t, 0, k);
    if i > 0 {
        words_hold_no_space(t.skip(e), i - 1, k);
        assert(words_view(s)[i] == words_view(t.skip(e))[i - 1]);
    } else {
        assert(words_view(s)[0] == t.take(e));
    }
}

/// No white space stands before the end of a word.
proof fn lemma_word_is_black(s: Seq<char>, from: int, k: int)
    requires
        0 <= from,
    ensures
        from <= k < word_end(s, from) && k < s.len() ==> !is_white(s[k]),
    decreases s.len() - from,
{
    if from < s.len() && !is_white(s[from]) {
        lemma_word_is_black(s, from + 1, k);
    }
}

} // verus!
